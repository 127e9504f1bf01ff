use solar_system::error::LoadError;
use solar_system::geometry::{FaceRef, Vec2, Vec3};
use solar_system::record::{parse_record, Record};

fn v3(x: &str, y: &str, z: &str) -> Vec3 {
    Vec3 { x: x.to_string(), y: y.to_string(), z: z.to_string() }
}

#[test]
fn a_position_keeps_its_three_literals() {
    assert_eq!(parse_record("v 1.5 -2 3e1"), Ok(Record::Position(v3("1.5", "-2", "3e1"))));
}

#[test]
fn a_texture_coordinate_keeps_its_two_literals() {
    assert_eq!(
        parse_record("vt 0.25 0.75"),
        Ok(Record::TexCoord(Vec2 { x: "0.25".to_string(), y: "0.75".to_string() }))
    );
}

#[test]
fn a_normal_keeps_its_three_literals() {
    assert_eq!(parse_record("\tvn 0 0 1 "), Ok(Record::Normal(v3("0", "0", "1"))));
}

#[test]
fn a_face_has_three_corners_in_order() {
    assert_eq!(
        parse_record("f 1/2/3 4/5/6 7/8/9"),
        Ok(Record::Face(
            FaceRef { position: 1, texcoord: 2, normal: 3 },
            FaceRef { position: 4, texcoord: 5, normal: 6 },
            FaceRef { position: 7, texcoord: 8, normal: 9 },
        ))
    );
}

#[test]
fn a_face_may_name_index_zero() {
    assert_eq!(
        parse_record("f 0/0/0 1/1/1 1/1/1"),
        Ok(Record::Face(
            FaceRef { position: 0, texcoord: 0, normal: 0 },
            FaceRef { position: 1, texcoord: 1, normal: 1 },
            FaceRef { position: 1, texcoord: 1, normal: 1 },
        ))
    );
}

#[test]
fn other_lines_are_ignored() {
    for line in ["", "   ", "# v 1 2 3", "o sun", "g", "mtllib a.mtl", "usemtl x", "s 1", "vv 1 2 3", "#"] {
        assert_eq!(parse_record(line), Ok(Record::Ignored), "{:?}", line);
    }
}

#[test]
fn wrong_token_counts_are_malformed() {
    for line in ["v", "v 1", "v 1 2", "v 1 2 3 4", "vt", "vt 1", "vt 1 2 3", "vn 1 2", "vn 1 2 3 4", "f", "f 1/1/1", "f 1/1/1 1/1/1", "f 1/1/1 1/1/1 1/1/1 1/1/1"] {
        assert_eq!(parse_record(line), Err(LoadError::MalformedRecord), "{:?}", line);
    }
}

#[test]
fn tokens_that_are_no_numbers_are_malformed() {
    for line in ["v a 2 3", "v 1 b 3", "v 1 2 c", "vt 1 .", "vn 1 2 e5", "f 1/1/x 1/1/1 1/1/1", "f 1/1/1 1/1 1/1/1", "f 1/1/1 1/1/1 //", "f 1/1/1 1/1/1 1/1/1/"] {
        assert_eq!(parse_record(line), Err(LoadError::MalformedRecord), "{:?}", line);
    }
}

#[test]
fn an_index_beyond_the_machine_word_is_out_of_range() {
    let line = "f 1/1/1 1/1/1 1/340282366920938463463374607431768211457/1";
    assert_eq!(parse_record(line), Err(LoadError::IndexOutOfRange));
    let both = "f 1/1/1 1/x/1 1/340282366920938463463374607431768211457/1";
    assert_eq!(parse_record(both), Err(LoadError::MalformedRecord));
}
