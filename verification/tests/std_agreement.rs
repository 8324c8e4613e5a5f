use lsdblox::asset::has_obj_extension;
use lsdblox::obj::scan_vertex_lines;
use std::path::Path;

fn std_is_obj(s: &str) -> bool {
    Path::new(s).extension().and_then(|e| e.to_str()) == Some("obj")
}

#[test]
fn obj_extension_agrees_with_path() {
    let samples = [
        "", "/", ".", "..", "obj", ".obj", "a.obj", "a.obj/", "a.obj//", "a.obj/.", "a.obj/./",
        "a.obj/..", "./a.obj", "../a.obj", "/srv/http/x/y.obj", "x.obj.png", "x.png.obj",
        "..obj", "...obj", "a..obj", "a/.obj", "a/b.ob", "a/b.objx", "a b.obj", "ä.obj", "a.ob j",
        "dir.obj/file", "./.", "//", "a/./b.obj/./", "a.", ".a.obj",
    ];
    for s in samples {
        assert_eq!(has_obj_extension(s), std_is_obj(s), "{:?}", s);
    }
}

fn std_vertex_lines(contents: &str) -> Vec<(String, String, String, String)> {
    let mut out = Vec::new();
    for line in contents.lines() {
        let trimmed_line = line.trim();
        if trimmed_line.starts_with('v') && trimmed_line.chars().nth(1) == Some(' ') {
            let components: Vec<&str> =
                trimmed_line.split(' ').filter(|s| !s.is_empty()).collect();
            if components.len() >= 4 {
                out.push((
                    trimmed_line.to_string(),
                    components[1].to_string(),
                    components[2].to_string(),
                    components[3].to_string(),
                ));
            }
        }
    }
    out
}

#[test]
fn vertex_scan_agrees_with_std_lines_trim_split() {
    let samples = [
        "",
        "\n",
        "v 1 2 3",
        "v 1 2 3\r\n",
        "v 1 2 3\r",
        "\r\nv 1 2 3\r\n\r\n",
        "  v   1   2   3   4  \n\tv 5 6 7\nvv 1 2 3\nv  \nv 1  2\n",
        "v\u{a0}1 2 3\nv 1\u{a0}2 3 4\n",
        "o cube\nv 1.0 -1.0 0.5\nvt 0 1\nvn 0 0 1\nf 1/1/1 2/2/2 3/3/3\nv 2e3 .5 -0\n",
    ];
    for s in samples {
        let ours: Vec<(String, String, String, String)> = scan_vertex_lines(s)
            .into_iter()
            .map(|r| (r.line, r.x, r.y, r.z))
            .collect();
        assert_eq!(ours, std_vertex_lines(s), "{:?}", s);
    }
}
