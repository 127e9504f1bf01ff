use solar_system::error::{LoadError, Policy};
use solar_system::object::{load, load_with};

const SCENE: &str = "# two triangles\nv 0 0 0\nv 1 0 0\nv 1 1 0\nf 1/1/1 2/2/1 3/3/1\nv 0 1 0\nvt 0 0\nvt 1 0\nvt 1 1\nvt 0 1\nvn 0 0 1\nvn 0 0 -1\nf 1/1/2 3/3/2 4/4/2\nf 4/1/1 3/2/2 2/3/1";

fn lines_of(text: &str) -> Vec<String> {
    text.split('\n').map(|l| l.to_string()).collect()
}

fn is_face(line: &str) -> bool {
    line.split_whitespace().next() == Some("f")
}

#[test]
fn every_face_gives_three_elements() {
    for policy in [Policy::Strict, Policy::Lenient] {
        let mesh = load_with(SCENE, policy).unwrap();
        let faces = lines_of(SCENE).iter().filter(|l| is_face(l)).count();
        assert_eq!(faces, 3);
        assert_eq!(mesh.positions.len(), 3 * faces);
        assert_eq!(mesh.texcoords.len(), 3 * faces);
        assert_eq!(mesh.normals.len(), 3 * faces);
    }
}

#[test]
fn an_ignored_line_may_stand_anywhere() {
    let plain = load(SCENE).unwrap();
    let lines = lines_of(SCENE);
    for extra in ["", "   ", "# v 1 2 3", "o body", "g", "usemtl stone", "s off", "\t", "vp 1 2", "F 1/1/1"] {
        for at in 0..=lines.len() {
            let mut longer = lines.clone();
            longer.insert(at, extra.to_string());
            let text = longer.join("\n");
            assert_eq!(load(&text).as_ref(), Ok(&plain), "{:?} at {}", extra, at);
            assert_eq!(load_with(&text, Policy::Lenient).as_ref(), Ok(&plain));
        }
    }
}

#[test]
fn exchanged_faces_exchange_their_triangles() {
    let plain = load(SCENE).unwrap();
    let lines = lines_of(SCENE);
    let faces: Vec<usize> = (0..lines.len()).filter(|i| is_face(&lines[*i])).collect();
    for a in 0..faces.len() {
        for b in (a + 1)..faces.len() {
            let mut other = lines.clone();
            other.swap(faces[a], faces[b]);
            let mesh = load(&other.join("\n")).unwrap();
            for k in 0..plain.positions.len() {
                let from = if k / 3 == a {
                    3 * b + k % 3
                } else if k / 3 == b {
                    3 * a + k % 3
                } else {
                    k
                };
                assert_eq!(mesh.positions[k], plain.positions[from]);
                assert_eq!(mesh.texcoords[k], plain.texcoords[from]);
                assert_eq!(mesh.normals[k], plain.normals[from]);
            }
        }
    }
}

#[test]
fn exchanged_faces_fail_as_before() {
    let bad = "v 0 0 0\nvt 0 0\nvn 0 0 1\nf 1/1/1 1/1/1 1/1/1\nf 2/1/1 1/1/1 1/1/1\n";
    let other = "v 0 0 0\nvt 0 0\nvn 0 0 1\nf 2/1/1 1/1/1 1/1/1\nf 1/1/1 1/1/1 1/1/1\n";
    assert_eq!(load(bad), Err(LoadError::IndexOutOfRange));
    assert_eq!(load(other), Err(LoadError::IndexOutOfRange));
}

#[test]
fn each_element_is_the_entry_that_its_corner_names() {
    let text = "v 1 0 0\nv 2 0 0\nv 3 0 0\nvt 1 1\nvt 2 2\nvn 0 0 1\nvn 0 0 2\nvn 0 0 3\nvn 0 0 4\nf 3/2/4 1/1/1 2/2/3\n";
    let mesh = load(text).unwrap();
    let x: Vec<&str> = mesh.positions.iter().map(|p| p.x.as_str()).collect();
    let u: Vec<&str> = mesh.texcoords.iter().map(|p| p.x.as_str()).collect();
    let z: Vec<&str> = mesh.normals.iter().map(|p| p.z.as_str()).collect();
    assert_eq!(x, vec!["3", "1", "2"]);
    assert_eq!(u, vec!["2", "1", "2"]);
    assert_eq!(z, vec!["4", "1", "3"]);
}

#[test]
fn any_index_out_of_range_fails_the_load() {
    let head = "v 0 0 0\nv 1 1 1\nvt 0 0\nvn 0 0 1\nf 1/1/1 2/1/1 1/1/1\n";
    assert!(load(head).is_ok());
    for face in [
        "f 0/1/1 1/1/1 1/1/1",
        "f 1/1/1 3/1/1 1/1/1",
        "f 1/1/1 1/1/1 1/0/1",
        "f 1/2/1 1/1/1 1/1/1",
        "f 1/1/1 1/1/0 1/1/1",
        "f 1/1/1 1/1/1 1/1/2",
        "f 1/1/1 1/1/1 18446744073709551616/1/1",
    ] {
        for text in [format!("{}{}\n", head, face), format!("{}\n{}", face, head)] {
            assert_eq!(load(&text), Err(LoadError::IndexOutOfRange), "{:?}", face);
            assert_eq!(load_with(&text, Policy::Lenient), Err(LoadError::IndexOutOfRange));
        }
    }
}
