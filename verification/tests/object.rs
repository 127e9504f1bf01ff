use solar_system::error::{LoadError, Policy};
use solar_system::geometry::{FaceRef, Mesh, Tables, Vec2, Vec3};
use solar_system::object::{load, load_contents, load_with, resolve, scan};

fn v3(x: &str, y: &str, z: &str) -> Vec3 {
    Vec3 { x: x.to_string(), y: y.to_string(), z: z.to_string() }
}

fn v2(x: &str, y: &str) -> Vec2 {
    Vec2 { x: x.to_string(), y: y.to_string() }
}

fn value(literal: &str) -> f32 {
    literal.parse::<f32>().expect("a literal of the mesh is a number")
}

fn positions(mesh: &Mesh) -> Vec<(f32, f32, f32)> {
    mesh.positions.iter().map(|p| (value(&p.x), value(&p.y), value(&p.z))).collect()
}

fn texcoords(mesh: &Mesh) -> Vec<(f32, f32)> {
    mesh.texcoords.iter().map(|p| (value(&p.x), value(&p.y))).collect()
}

fn normals(mesh: &Mesh) -> Vec<(f32, f32, f32)> {
    mesh.normals.iter().map(|p| (value(&p.x), value(&p.y), value(&p.z))).collect()
}

const TRIANGLE: &str = "v 0.0 0.0 0.0\nv 1.0 0.0 0.0\nv 0.0 1.0 0.0\nvt 0.0 0.0\nvt 1.0 0.0\nvt 0.0 1.0\nvn 0.0 0.0 1.0\nf 1/1/1 2/2/1 3/3/1\n";

const QUAD: &str = "v 0 0 0\nv 1 0 0\nv 1 1 0\nv 0 1 0\nvt 0 0\nvt 1 0\nvt 1 1\nvt 0 1\nvn 0 0 1\nvn 0 0 -1\nf 1/1/1 2/2/1 3/3/1\nf 1/1/2 3/3/2 4/4/2\n";

#[test]
fn end_to_end_scenario() {
    let mesh = load(TRIANGLE).unwrap();
    assert_eq!(positions(&mesh), vec![(0.0, 0.0, 0.0), (1.0, 0.0, 0.0), (0.0, 1.0, 0.0)]);
    assert_eq!(texcoords(&mesh), vec![(0.0, 0.0), (1.0, 0.0), (0.0, 1.0)]);
    assert_eq!(normals(&mesh), vec![(0.0, 0.0, 1.0), (0.0, 0.0, 1.0), (0.0, 0.0, 1.0)]);
}

#[test]
fn end_to_end_scenario_keeps_the_literals() {
    let mesh = load(TRIANGLE).unwrap();
    assert_eq!(
        mesh.positions,
        vec![v3("0.0", "0.0", "0.0"), v3("1.0", "0.0", "0.0"), v3("0.0", "1.0", "0.0")]
    );
    assert_eq!(mesh.texcoords, vec![v2("0.0", "0.0"), v2("1.0", "0.0"), v2("0.0", "1.0")]);
    assert_eq!(
        mesh.normals,
        vec![v3("0.0", "0.0", "1.0"), v3("0.0", "0.0", "1.0"), v3("0.0", "0.0", "1.0")]
    );
}

#[test]
fn index_resolution_correctness() {
    let tables = Tables {
        positions: vec![v3("0", "0", "0"), v3("1", "0", "0"), v3("0", "1", "0")],
        texcoords: vec![v2("0", "0")],
        normals: vec![v3("0", "0", "1")],
    };
    let refs = vec![FaceRef { position: 2, texcoord: 1, normal: 1 }];
    let mesh = resolve(&tables, &refs).unwrap();
    assert_eq!(positions(&mesh), vec![(1.0, 0.0, 0.0)]);
    assert_eq!(mesh.positions, vec![v3("1", "0", "0")]);
    assert_eq!(mesh.texcoords, vec![v2("0", "0")]);
    assert_eq!(mesh.normals, vec![v3("0", "0", "1")]);
}

#[test]
fn resolve_takes_first_and_last_entries() {
    let tables = Tables {
        positions: vec![v3("1", "1", "1"), v3("2", "2", "2")],
        texcoords: vec![v2("3", "3"), v2("4", "4"), v2("5", "5")],
        normals: vec![v3("6", "6", "6")],
    };
    let refs = vec![
        FaceRef { position: 2, texcoord: 3, normal: 1 },
        FaceRef { position: 1, texcoord: 1, normal: 1 },
    ];
    let mesh = resolve(&tables, &refs).unwrap();
    assert_eq!(mesh.positions, vec![v3("2", "2", "2"), v3("1", "1", "1")]);
    assert_eq!(mesh.texcoords, vec![v2("5", "5"), v2("3", "3")]);
    assert_eq!(mesh.normals, vec![v3("6", "6", "6"), v3("6", "6", "6")]);
}

#[test]
fn resolve_of_no_corner_is_an_empty_mesh() {
    let tables = Tables { positions: vec![], texcoords: vec![], normals: vec![] };
    let mesh = resolve(&tables, &vec![]).unwrap();
    assert!(mesh.positions.is_empty() && mesh.texcoords.is_empty() && mesh.normals.is_empty());
}

#[test]
fn resolve_rejects_each_index_out_of_range() {
    let tables = Tables {
        positions: vec![v3("1", "1", "1")],
        texcoords: vec![v2("3", "3")],
        normals: vec![v3("6", "6", "6")],
    };
    for bad in [
        FaceRef { position: 0, texcoord: 1, normal: 1 },
        FaceRef { position: 2, texcoord: 1, normal: 1 },
        FaceRef { position: 1, texcoord: 0, normal: 1 },
        FaceRef { position: 1, texcoord: 2, normal: 1 },
        FaceRef { position: 1, texcoord: 1, normal: 0 },
        FaceRef { position: 1, texcoord: 1, normal: 2 },
        FaceRef { position: usize::MAX, texcoord: 1, normal: 1 },
    ] {
        let good = FaceRef { position: 1, texcoord: 1, normal: 1 };
        assert_eq!(resolve(&tables, &vec![good, bad]), Err(LoadError::IndexOutOfRange));
    }
}

#[test]
fn round_trip_count() {
    let mesh = load(QUAD).unwrap();
    assert_eq!(mesh.positions.len(), 6);
    assert_eq!(mesh.texcoords.len(), 6);
    assert_eq!(mesh.normals.len(), 6);
    let none = load("v 0 0 0\nvt 0 0\nvn 0 0 1\n").unwrap();
    assert_eq!((none.positions.len(), none.texcoords.len(), none.normals.len()), (0, 0, 0));
}

#[test]
fn order_preservation() {
    let mesh = load(QUAD).unwrap();
    assert_eq!(
        positions(&mesh),
        vec![
            (0.0, 0.0, 0.0),
            (1.0, 0.0, 0.0),
            (1.0, 1.0, 0.0),
            (0.0, 0.0, 0.0),
            (1.0, 1.0, 0.0),
            (0.0, 1.0, 0.0)
        ]
    );
    assert_eq!(
        normals(&mesh),
        vec![
            (0.0, 0.0, 1.0),
            (0.0, 0.0, 1.0),
            (0.0, 0.0, 1.0),
            (0.0, 0.0, -1.0),
            (0.0, 0.0, -1.0),
            (0.0, 0.0, -1.0)
        ]
    );
    let swapped = "v 0 0 0\nv 1 0 0\nv 1 1 0\nv 0 1 0\nvt 0 0\nvt 1 0\nvt 1 1\nvt 0 1\nvn 0 0 1\nvn 0 0 -1\nf 1/1/2 3/3/2 4/4/2\nf 1/1/1 2/2/1 3/3/1\n";
    let other = load(swapped).unwrap();
    assert_eq!(other.positions[0..3], mesh.positions[3..6]);
    assert_eq!(other.positions[3..6], mesh.positions[0..3]);
    assert_eq!(other.texcoords[0..3], mesh.texcoords[3..6]);
    assert_eq!(other.texcoords[3..6], mesh.texcoords[0..3]);
    assert_eq!(other.normals[0..3], mesh.normals[3..6]);
    assert_eq!(other.normals[3..6], mesh.normals[0..3]);
}

#[test]
fn ignored_tag_invariance() {
    let plain = load(TRIANGLE).unwrap();
    let noisy = "# a triangle\n\no Triangle\nv 0.0 0.0 0.0\n   \nv 1.0 0.0 0.0\nmtllib scene.mtl\nv 0.0 1.0 0.0\n#v 9 9 9\nvt 0.0 0.0\nvt 1.0 0.0\ng group\nvt 0.0 1.0\nusemtl none\nvn 0.0 0.0 1.0\ns off\nf 1/1/1 2/2/1 3/3/1\n\n# end";
    assert_eq!(load(noisy).unwrap(), plain);
    assert_eq!(load_with(noisy, Policy::Lenient).unwrap(), plain);
}

#[test]
fn tags_are_matched_exactly() {
    let text = "V 1 2 3\nvs 1 2 3\nvtx 1 2\nface 1/1/1 1/1/1 1/1/1\nvp 1 2 3\nF x\n";
    let (tables, refs) = scan(text, Policy::Strict).unwrap();
    assert!(tables.positions.is_empty() && tables.texcoords.is_empty());
    assert!(tables.normals.is_empty() && refs.is_empty());
}

#[test]
fn out_of_range_detection() {
    let zero = "v 0 0 0\nvt 0 0\nvn 0 0 1\nf 0/1/1 1/1/1 1/1/1\n";
    assert_eq!(load(zero), Err(LoadError::IndexOutOfRange));
    let past = "v 0 0 0\nvt 0 0\nvn 0 0 1\nf 1/1/1 2/1/1 1/1/1\n";
    assert_eq!(load(past), Err(LoadError::IndexOutOfRange));
    let far = "v 0 0 0\nvt 0 0\nvn 0 0 1\nf 1/1/1 1/1/1 340282366920938463463374607431768211457/1/1\n";
    assert_eq!(load(far), Err(LoadError::IndexOutOfRange));
    assert_eq!(load_with(far, Policy::Lenient), Err(LoadError::IndexOutOfRange));
    let texcoord = "v 0 0 0\nvt 0 0\nvn 0 0 1\nf 1/2/1 1/1/1 1/1/1\n";
    assert_eq!(load(texcoord), Err(LoadError::IndexOutOfRange));
    let normal = "v 0 0 0\nvt 0 0\nvn 0 0 1\nf 1/1/1 1/1/1 1/1/0\n";
    assert_eq!(load(normal), Err(LoadError::IndexOutOfRange));
    let empty_tables = "f 1/1/1 1/1/1 1/1/1\n";
    assert_eq!(load(empty_tables), Err(LoadError::IndexOutOfRange));
}

#[test]
fn a_face_may_stand_before_its_entries() {
    let text = "f 1/1/1 2/1/1 1/1/1\nv 1 2 3\nvn 0 0 1\nvt 0.5 0.5\nv 4 5 6\n";
    let mesh = load(text).unwrap();
    assert_eq!(positions(&mesh), vec![(1.0, 2.0, 3.0), (4.0, 5.0, 6.0), (1.0, 2.0, 3.0)]);
    assert_eq!(texcoords(&mesh), vec![(0.5, 0.5), (0.5, 0.5), (0.5, 0.5)]);
}

#[test]
fn malformed_records_fail_a_strict_load() {
    for text in [
        "v 1 2\n",
        "v 1 2 3 4\n",
        "v\n",
        "v 1 2 x\n",
        "v 1,0 2 3\n",
        "vt 1\n",
        "vt 1 2 3\n",
        "vt 1 one\n",
        "vn 1 2\n",
        "vn 1 2 3 4\n",
        "vn a b c\n",
        "f 1/1/1 1/1/1\n",
        "f 1/1/1 1/1/1 1/1/1 1/1/1\n",
        "f 1 1 1\n",
        "f 1/1 1/1 1/1\n",
        "f 1//1 1//1 1//1\n",
        "f 1/1/1/1 1/1/1 1/1/1\n",
        "f 1/1/-1 1/1/1 1/1/1\n",
        "f 1/1/1.0 1/1/1 1/1/1\n",
        "f a/b/c 1/1/1 1/1/1\n",
        "f\n",
    ] {
        let whole = format!("v 0 0 0\nvt 0 0\nvn 0 0 1\n{}f 1/1/1 1/1/1 1/1/1\n", text);
        assert_eq!(load(&whole), Err(LoadError::MalformedRecord), "{:?}", text);
        assert_eq!(load_with(&whole, Policy::Strict), Err(LoadError::MalformedRecord));
    }
}

#[test]
fn a_lenient_load_skips_malformed_records() {
    let text = "v 0 0 0\nv 1 2\nv 1 0 0\nvt 0 0\nvt x y\nvn 0 0 1\nf 1/1/1 2/1/1\nf 2/1/1 1/1/1 2/1/1\nf 9/9/9 1/1\n";
    assert_eq!(load(text), Err(LoadError::MalformedRecord));
    let mesh = load_with(text, Policy::Lenient).unwrap();
    assert_eq!(positions(&mesh), vec![(1.0, 0.0, 0.0), (0.0, 0.0, 0.0), (1.0, 0.0, 0.0)]);
    assert_eq!(mesh.texcoords.len(), 3);
    assert_eq!(mesh.normals.len(), 3);
}

#[test]
fn a_skipped_record_takes_no_index() {
    let text = "v 1 1 1\nv bad 2 2\nv 3 3 3\nvt 0 0\nvn 0 0 1\nf 2/1/1 2/1/1 2/1/1\n";
    let mesh = load_with(text, Policy::Lenient).unwrap();
    assert_eq!(positions(&mesh), vec![(3.0, 3.0, 3.0); 3]);
}

#[test]
fn a_malformed_record_is_reported_before_an_index_out_of_range() {
    let text = "f 5/5/5 5/5/5 5/5/5\nv 1 2\n";
    assert_eq!(load(text), Err(LoadError::MalformedRecord));
    assert_eq!(load_with(text, Policy::Lenient), Err(LoadError::IndexOutOfRange));
    let far = "f 99999999999999999999999999/1/1 1/1/1 1/1/1\nv 1 2\n";
    assert_eq!(load(far), Err(LoadError::MalformedRecord));
    assert_eq!(load_with(far, Policy::Lenient), Err(LoadError::IndexOutOfRange));
}

#[test]
fn unread_contents_are_an_io_error() {
    assert_eq!(load_contents(None, Policy::Strict), Err(LoadError::Io));
    assert_eq!(load_contents(None, Policy::Lenient), Err(LoadError::Io));
    assert_eq!(load_contents(Some(TRIANGLE), Policy::Strict), load(TRIANGLE));
    assert_eq!(load_contents(Some("v 1\n"), Policy::Strict), Err(LoadError::MalformedRecord));
}

#[test]
fn empty_text_is_an_empty_mesh() {
    for text in ["", "\n", "\n\n\n", "   ", "# nothing\n"] {
        let mesh = load(text).unwrap();
        assert!(mesh.positions.is_empty() && mesh.texcoords.is_empty() && mesh.normals.is_empty());
    }
}

#[test]
fn whitespace_around_tokens_is_insignificant() {
    let text = "  v   0.0\t0.0  0.0  \r\n\tv 1.0 0.0 0.0\r\nv 0.0 1.0 0.0\r\nvt 0.0 0.0\r\nvt\u{a0}1.0\u{2003}0.0\r\nvt 0.0 1.0\r\nvn 0.0 0.0 1.0\r\n \x0c f  1/1/1   2/2/1\t3/3/1  \r\n";
    assert_eq!(load(text).unwrap(), load(TRIANGLE).unwrap());
}

#[test]
fn the_last_line_needs_no_line_feed() {
    let text = "v 1 2 3\nvt 4 5\nvn 6 7 8\nf 1/1/1 1/1/1 1/1/1";
    let mesh = load(text).unwrap();
    assert_eq!(positions(&mesh), vec![(1.0, 2.0, 3.0); 3]);
    assert_eq!(texcoords(&mesh), vec![(4.0, 5.0); 3]);
    assert_eq!(normals(&mesh), vec![(6.0, 7.0, 8.0); 3]);
}

#[test]
fn literals_of_every_form_are_kept_as_written() {
    let text = "v -1.5e3 +.5 7.\nvt inf -NaN\nvn 1E-2 -Infinity 0\nf +1/1/01 1/1/1 1/1/1\n";
    let mesh = load(text).unwrap();
    assert_eq!(mesh.positions[0], v3("-1.5e3", "+.5", "7."));
    assert_eq!(mesh.texcoords[0], v2("inf", "-NaN"));
    assert_eq!(mesh.normals[0], v3("1E-2", "-Infinity", "0"));
    assert_eq!(positions(&mesh)[0], (-1500.0, 0.5, 7.0));
    assert_eq!(normals(&mesh)[0], (0.01, f32::NEG_INFINITY, 0.0));
    assert!(value(&mesh.texcoords[0].y).is_nan());
}

#[test]
fn scan_fills_the_tables_in_file_order() {
    let text = "vn 0 0 1\nv 1 1 1\nf 2/1/1 1/1/1 2/1/1\nvt 0.5 0.25\nv 2 2 2\n";
    let (tables, refs) = scan(text, Policy::Strict).unwrap();
    assert_eq!(tables.positions, vec![v3("1", "1", "1"), v3("2", "2", "2")]);
    assert_eq!(tables.texcoords, vec![v2("0.5", "0.25")]);
    assert_eq!(tables.normals, vec![v3("0", "0", "1")]);
    assert_eq!(
        refs,
        vec![
            FaceRef { position: 2, texcoord: 1, normal: 1 },
            FaceRef { position: 1, texcoord: 1, normal: 1 },
            FaceRef { position: 2, texcoord: 1, normal: 1 },
        ]
    );
}

#[test]
fn scan_reports_what_it_cannot_hold() {
    assert_eq!(scan("v 1 2\n", Policy::Strict), Err(LoadError::MalformedRecord));
    assert!(scan("v 1 2\n", Policy::Lenient).is_ok());
    let far = "f 99999999999999999999999999/1/1 1/1/1 1/1/1\n";
    assert_eq!(scan(far, Policy::Strict), Err(LoadError::IndexOutOfRange));
    assert_eq!(scan(far, Policy::Lenient), Err(LoadError::IndexOutOfRange));
}

#[test]
fn a_large_mesh_loads() {
    let count = 20000;
    let mut text = String::new();
    for i in 0..count {
        text.push_str(&format!("v {}.5 {} -{}e-1\n", i, i + 1, i));
        text.push_str(&format!("vt {} 0.{}\n", i, i));
        text.push_str(&format!("vn 0 {} 1\n", i));
    }
    for i in 0..count {
        let a = i + 1;
        let b = (i + 1) % count + 1;
        let c = (i + 2) % count + 1;
        text.push_str(&format!("f {}/{}/{} {}/{}/{} {}/{}/{}\n", a, a, a, b, b, b, c, c, c));
    }
    let mesh = load(&text).unwrap();
    assert_eq!(mesh.positions.len(), 3 * count);
    assert_eq!(mesh.texcoords.len(), 3 * count);
    assert_eq!(mesh.normals.len(), 3 * count);
    assert_eq!(mesh.positions[0], v3("0.5", "1", "-0e-1"));
    assert_eq!(mesh.positions[3 * count - 1], v3("1.5", "2", "-1e-1"));
    assert_eq!(mesh.texcoords[3 * count - 3], v2("19999", "0.19999"));
    assert_eq!(value(&mesh.positions[4].z), -0.2);
}
