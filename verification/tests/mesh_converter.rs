use lsdblox::mesh_file::{decimal_string, mesh_document, mesh_header_count, mesh_output_path, parse_mesh_args};
use lsdblox::obj::scan_vertex_lines;

fn strings(v: &[&str]) -> Vec<String> {
    v.iter().map(|s| s.to_string()).collect()
}

#[test]
fn scan_picks_vertex_lines_only() {
    let text = "v 1 2 3\n  v  4.5 5 6 7  \r\nvn 0 1 0\nv 1 2\nvt 0 0\nv\t1 2 3\n# comment\nv 7 8 9";
    let found = scan_vertex_lines(text);
    assert_eq!(found.len(), 3);
    assert_eq!(found[0].line, "v 1 2 3");
    assert_eq!((found[0].x.as_str(), found[0].y.as_str(), found[0].z.as_str()), ("1", "2", "3"));
    assert_eq!(found[1].line, "v  4.5 5 6 7");
    assert_eq!((found[1].x.as_str(), found[1].y.as_str(), found[1].z.as_str()), ("4.5", "5", "6"));
    assert_eq!(found[2].line, "v 7 8 9");
    assert_eq!(found[2].z, "9");
}

#[test]
fn scan_keeps_unparsable_fields_for_the_caller() {
    let found = scan_vertex_lines("v a b c\n");
    assert_eq!(found.len(), 1);
    assert_eq!(found[0].line, "v a b c");
    assert_eq!(found[0].x, "a");
}

#[test]
fn scan_of_empty_text_and_blank_lines() {
    assert!(scan_vertex_lines("").is_empty());
    assert!(scan_vertex_lines("\n\n   \n").is_empty());
    assert!(scan_vertex_lines("v").is_empty());
    assert!(scan_vertex_lines("v ").is_empty());
}

#[test]
fn scan_trims_unicode_whitespace() {
    let found = scan_vertex_lines("\u{3000}v 1 2 3\u{a0}\n\u{85}\tv 4 5 6\u{2028}\n\u{200b}v 7 8 9\n");
    assert_eq!(found.len(), 2);
    assert_eq!(found[0].line, "v 1 2 3");
    assert_eq!(found[1].line, "v 4 5 6");
}

#[test]
fn decimal_numerals() {
    assert_eq!(decimal_string(0), "0");
    assert_eq!(decimal_string(9), "9");
    assert_eq!(decimal_string(10), "10");
    assert_eq!(decimal_string(1234567), "1234567");
}

#[test]
fn header_counts_complete_groups_of_nine() {
    assert_eq!(mesh_header_count(0), 0);
    assert_eq!(mesh_header_count(8), 0);
    assert_eq!(mesh_header_count(9), 1);
    assert_eq!(mesh_header_count(20), 2);
}

#[test]
fn document_for_one_point() {
    let points = vec![("1".to_string(), "2".to_string(), "3".to_string())];
    let (text, written) = mesh_document(&points);
    assert_eq!(text, "version 1.00\n0\n[1,2,3]\n");
    assert_eq!(written, 0);
}

#[test]
fn document_for_nine_points_states_one_group() {
    let points: Vec<(String, String, String)> =
        (0..9).map(|i| (i.to_string(), "0".to_string(), "-1.5".to_string())).collect();
    let (text, written) = mesh_document(&points);
    assert_eq!(written, mesh_header_count(points.len()));
    assert_eq!(written, 1);
    let mut expected = String::from("version 1.00\n1\n");
    for i in 0..9 {
        expected.push_str(&format!("[{},0,-1.5]", i));
    }
    expected.push('\n');
    assert_eq!(text, expected);
}

#[test]
fn document_without_points() {
    let (text, written) = mesh_document(&Vec::new());
    assert_eq!(text, "version 1.00\n0\n\n");
    assert_eq!(written, 0);
}

#[test]
fn converter_arguments() {
    assert!(parse_mesh_args(&strings(&["mesh"])).is_none());
    assert!(parse_mesh_args(&strings(&[])).is_none());
    let a = parse_mesh_args(&strings(&["mesh", "hat.obj"])).unwrap();
    assert_eq!(a.input, "hat.obj");
    assert!(!a.to_terminal);
    let b = parse_mesh_args(&strings(&["mesh", "hat.obj", "-c"])).unwrap();
    assert!(b.to_terminal);
    let c = parse_mesh_args(&strings(&["mesh", "hat.obj", "-x"])).unwrap();
    assert!(!c.to_terminal);
}

#[test]
fn output_path_appends_extension() {
    assert_eq!(mesh_output_path("hat.obj"), "hat.obj.mesh");
    assert_eq!(mesh_output_path(""), ".mesh");
}
