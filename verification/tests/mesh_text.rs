use hw_raytracer::fixed::{Fixed, SCALE};
use hw_raytracer::material::Material;
use hw_raytracer::mesh_file::{
    get_vector3_from_line, parse_decimal, parse_mesh, parse_str_vec, words, Mesh, MeshFileError,
};
use hw_raytracer::objects::triangle::MeshTriangle;
use hw_raytracer::objects::Object;
use hw_raytracer::vector::Vector3;

fn lines(text: &str) -> Vec<String> {
    text.lines().map(|l| l.to_string()).collect()
}

fn value(f: Fixed) -> f64 {
    f.raw as f64 / 4294967296.0
}

#[test]
fn a_line_falls_into_its_words() {
    assert_eq!(words("v 1.0 2.0 3.0"), vec!["v", "1.0", "2.0", "3.0"]);
    assert_eq!(words("  f\t1/2/3   4//6 \t 7 "), vec!["f", "1/2/3", "4//6", "7"]);
    assert_eq!(words("word"), vec!["word"]);
    assert!(words("").is_empty());
    assert!(words(" \t ").is_empty());
}

#[test]
fn words_agree_with_the_standard_library() {
    for line in ["a b", " a  b ", "\ta\t\tb c\t", "é ü", "x", " ", "", "# a comment  here"] {
        let expected: Vec<&str> =
            line.split(|c| c == ' ' || c == '\t').filter(|w| !w.is_empty()).collect();
        assert_eq!(words(line), expected, "{:?}", line);
    }
}

#[test]
fn decimal_numbers_are_read_exactly_where_they_are_binary() {
    assert_eq!(parse_decimal("0"), Some(Fixed::zero()));
    assert_eq!(parse_decimal("1"), Some(Fixed::one()));
    assert_eq!(parse_decimal("-1"), Some(Fixed::from_int(-1)));
    assert_eq!(parse_decimal("+17"), Some(Fixed::from_int(17)));
    assert_eq!(parse_decimal("0.5"), Some(Fixed::from_ratio(1, 2)));
    assert_eq!(parse_decimal("-0.25"), Some(Fixed::from_ratio(-1, 4)));
    assert_eq!(parse_decimal(".5"), Some(Fixed::from_ratio(1, 2)));
    assert_eq!(parse_decimal("5."), Some(Fixed::from_int(5)));
    assert_eq!(parse_decimal("552.500000"), Some(Fixed::from_ratio(1105, 2)));
    assert_eq!(parse_decimal("-0.000000"), Some(Fixed::zero()));
    assert_eq!(parse_decimal("007.125"), Some(Fixed::from_ratio(57, 8)));
}

#[test]
fn other_decimal_numbers_are_rounded_toward_zero() {
    assert_eq!(parse_decimal("0.1"), Some(Fixed::from_raw(SCALE / 10)));
    assert_eq!(parse_decimal("-0.1"), Some(Fixed::from_raw(-(SCALE / 10))));
    assert_eq!(parse_decimal("0.3333333333"), Some(Fixed::from_raw(1431655765)));
    for text in ["3.14159265", "552.8", "-548.8", "0.000001", "123456.789"] {
        let expected: f64 = text.parse().unwrap();
        let read = parse_decimal(text).expect("a number");
        assert!((value(read) - expected).abs() < 1e-9, "{}", text);
    }
}

#[test]
fn numbers_beyond_the_range_saturate() {
    assert_eq!(parse_decimal("2147483648"), Some(Fixed::max_value()));
    assert_eq!(parse_decimal("-2147483648"), Some(Fixed::min_value()));
    assert_eq!(parse_decimal("-99999999999"), Some(Fixed::min_value()));
    assert_eq!(parse_decimal("2147483647"), Some(Fixed::from_int(2147483647)));
}

#[test]
fn what_is_no_decimal_number_is_refused() {
    for text in ["", "-", "+", ".", "-.", "1.2.3", "1e5", "1,5", " 1", "1 ", "--1", "0x10", "1.5f", "٣"] {
        assert_eq!(parse_decimal(text), None, "{:?}", text);
    }
    // Twenty-eight digits are read, twenty-nine are not.
    assert!(parse_decimal("0.000000000000000000000000001").is_some());
    assert_eq!(parse_decimal("0.0000000000000000000000000001"), None);
}

#[test]
fn vertices_and_triangles_are_gathered() {
    let mesh = parse_mesh(&lines(
        "# a square\no floor\nv 0 0 0\nv 0 0 2.5\nv 2.5 0 2.5\nv 2.5 0 0\n\nvn 0 1 0\nusemtl white\ns off\nf 1 2 3\nf 1//1 3//1 4//1\n",
    ))
    .expect("a sound file");
    assert_eq!(mesh.vertices.len(), 4);
    assert_eq!(mesh.vertices[2], Vector3::new(Fixed::from_ratio(5, 2), Fixed::zero(), Fixed::from_ratio(5, 2)));
    assert_eq!(mesh.indices, vec![0, 1, 2, 0, 2, 3]);
}

#[test]
fn faces_with_more_corners_become_fans() {
    let mesh = parse_mesh(&lines("v 0 0 0\nv 0 0 1\nv 1 0 2\nv 2 0 1\nv 2 0 0\nf 1 2 3 4 5"))
        .expect("a sound file");
    assert_eq!(mesh.indices, vec![0, 1, 2, 0, 2, 3, 0, 3, 4]);
}

#[test]
fn negative_indices_count_back_from_the_last_vertex() {
    let mesh = parse_mesh(&lines("v 0 0 0\nv 0 0 1\nv 1 0 0\nf -3 -2 -1\nv 5 5 5\nf -1 1/7 2/8/9"))
        .expect("a sound file");
    assert_eq!(mesh.indices, vec![0, 1, 2, 3, 0, 1]);
}

#[test]
fn the_first_line_that_cannot_be_read_is_reported() {
    let refused = |text: &str| parse_mesh(&lines(text)).err();
    assert_eq!(refused("v 0 0 0\nv 1 2\nv x y z"), Some(MeshFileError { line: 1 }));
    assert_eq!(refused("v 0 0 0 1"), Some(MeshFileError { line: 0 }));
    assert_eq!(refused("v 0 0 zero"), Some(MeshFileError { line: 0 }));
    assert_eq!(refused("v 0 0 0\nv 0 0 1\nf 1 2"), Some(MeshFileError { line: 2 }));
    assert_eq!(refused("v 0 0 0\nv 0 0 1\nf 1 2 3"), Some(MeshFileError { line: 2 }));
    assert_eq!(refused("v 0 0 0\nv 0 0 1\nv 1 0 0\nf 0 1 2"), Some(MeshFileError { line: 3 }));
    assert_eq!(refused("v 0 0 0\nv 0 0 1\nv 1 0 0\nf 1 2 -4"), Some(MeshFileError { line: 3 }));
    assert_eq!(refused("v 0 0 0\n\ncurve 1 2"), Some(MeshFileError { line: 2 }));
    assert_eq!(refused("f 1 2 3\nv 0 0 0\nv 0 0 1\nv 1 0 0"), Some(MeshFileError { line: 0 }));
}

#[test]
fn an_empty_file_gives_an_empty_mesh() {
    let mesh = parse_mesh(&vec![]).expect("nothing to refuse");
    assert!(mesh.vertices.is_empty() && mesh.indices.is_empty());
    let mesh = parse_mesh(&lines("# nothing\n\n   \ng group")).expect("nothing to refuse");
    assert!(mesh.vertices.is_empty() && mesh.indices.is_empty());
}

#[test]
fn a_mesh_is_built_from_the_text_of_its_file() {
    let text = "v 552.8 0.0 0.0\nv 0.0 0.0 0.0\nv 0.0 0.0 559.2\nv 549.6 0.0 559.2\nf 1 2 3 4";
    let read = parse_mesh(&lines(text)).expect("a sound file");
    let mesh = MeshTriangle::new(&read.vertices, &read.indices, Material::default()).expect("two faces");
    assert_eq!(mesh.triangles.len(), 2);
    assert_eq!(mesh.triangles[0].normal, Vector3::from_ints(0, 1, 0));
    let expected = 0.5 * 552.8 * 559.2 + 0.5 * 549.6 * 559.2;
    assert!((value(mesh.get_area()) - expected).abs() < 1e-3);
}

#[test]
fn a_list_of_words_becomes_a_list_of_numbers() {
    assert_eq!(
        parse_str_vec(vec!["1", "-2.5", "0.25"]),
        Some(vec![Fixed::from_int(1), Fixed::from_ratio(-5, 2), Fixed::from_ratio(1, 4)])
    );
    assert_eq!(parse_str_vec(vec![]), Some(vec![]));
    assert_eq!(parse_str_vec(vec!["1", "two", "3"]), None);
}

#[test]
fn a_vector_is_read_from_behind_the_keyword() {
    assert_eq!(get_vector3_from_line("v 1 2.5 -3"), Some(Vector3::new(Fixed::from_int(1), Fixed::from_ratio(5, 2), Fixed::from_int(-3))));
    assert_eq!(get_vector3_from_line("  Kd\t0.5 0.25  0.125 "), Some(Vector3::new(Fixed::from_ratio(1, 2), Fixed::from_ratio(1, 4), Fixed::from_ratio(1, 8))));
    assert_eq!(get_vector3_from_line("v 1 2"), None);
    assert_eq!(get_vector3_from_line("v 1 2 3 4"), None);
    assert_eq!(get_vector3_from_line("1 2 3"), None);
    assert_eq!(get_vector3_from_line(""), None);
}

#[test]
fn a_mesh_keeps_what_it_is_given() {
    let mesh = Mesh::new(vec![Vector3::zero()], vec![0, 0, 0]);
    assert_eq!(mesh.vertices, vec![Vector3::zero()]);
    assert_eq!(mesh.indices, vec![0, 0, 0]);
}
