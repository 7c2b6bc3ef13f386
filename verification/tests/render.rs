use smart_rg::found::RgMatch;
use smart_rg::render::{render_output, OutputMode};

fn rg_hit(file: &str, line: u64, text: &str) -> RgMatch {
    RgMatch { file: file.into(), line, text: text.into() }
}

#[test]
fn content_output_is_file_colon_line_colon_text() {
    let m = vec![rg_hit("src/a.ts", 1, "const deviceId = 1;")];
    assert_eq!(
        render_output(&m, OutputMode::Content { line_numbers: true }),
        "src/a.ts:1:const deviceId = 1;\n"
    );
}

#[test]
fn content_output_omits_the_line_number_when_not_asked_for() {
    let m = vec![rg_hit("src/a.ts", 1, "const deviceId = 1;")];
    assert_eq!(
        render_output(&m, OutputMode::Content { line_numbers: false }),
        "src/a.ts:const deviceId = 1;\n"
    );
}

#[test]
fn count_output_is_per_file_like_ripgrep() {
    let m = vec![rg_hit("src/a.ts", 1, "a"), rg_hit("src/a.ts", 5, "b"), rg_hit("src/b.ts", 3, "c")];
    assert_eq!(
        render_output(&m, OutputMode::Count { show_filename: true }),
        "src/a.ts:2\nsrc/b.ts:1\n"
    );
}

#[test]
fn count_output_omits_the_filename_for_a_single_explicit_file() {
    let m = vec![rg_hit("src/a.ts", 1, "a"), rg_hit("src/a.ts", 5, "b")];
    assert_eq!(render_output(&m, OutputMode::Count { show_filename: false }), "2\n");
}

#[test]
fn files_with_matches_output_is_sorted_and_deduped() {
    let m = vec![rg_hit("src/b.ts", 1, "a"), rg_hit("src/a.ts", 1, "b"), rg_hit("src/b.ts", 4, "c")];
    assert_eq!(render_output(&m, OutputMode::FilesWithMatches), "src/a.ts\nsrc/b.ts\n");
}
