use daily_ai::patch::{push_decimal, render_patch_header, render_patch_line};

#[test]
fn decimal_numbers() {
    let mut s = String::new();
    push_decimal(&mut s, 0);
    s.push(' ');
    push_decimal(&mut s, 4_294_967_295);
    s.push(' ');
    push_decimal(&mut s, 120);
    assert_eq!(s, "0 4294967295 120");
}

#[test]
fn patch_headers() {
    assert_eq!(render_patch_header(Some("src/a.rs"), Some("src/a.rs")), "--- a/src/a.rs\n+++ b/src/a.rs\n");
    assert_eq!(render_patch_header(None, Some("new.txt")), "--- a/unknown\n+++ b/new.txt\n");
}

#[test]
fn patch_lines_in_range_with_hunk_headers() {
    let mut out = String::new();
    let mut last = None;
    let h = Some((1, 3, 1, 4));
    render_patch_line(Some(2), Some(3), h, ' ', Some(1), Some(1), "keep\n", &mut out, &mut last);
    render_patch_line(Some(2), Some(3), h, '+', None, Some(2), "added\n", &mut out, &mut last);
    render_patch_line(Some(2), Some(3), h, '-', Some(2), None, "removed\n", &mut out, &mut last);
    render_patch_line(Some(2), Some(3), h, ' ', Some(3), Some(4), "late\n", &mut out, &mut last);
    assert_eq!(out, "@@ -1,3 +1,4 @@\n+added\n-removed\n");
    assert_eq!(last, Some((1, 3, 1, 4)));
}

#[test]
fn patch_lines_without_range() {
    let mut out = String::new();
    let mut last = None;
    render_patch_line(None, None, None, '+', None, None, "x\n", &mut out, &mut last);
    render_patch_line(None, None, Some((7, 0, 8, 1)), '+', None, Some(8), "y\n", &mut out, &mut last);
    render_patch_line(None, None, Some((7, 0, 8, 1)), '+', None, Some(9), "z\n", &mut out, &mut last);
    assert_eq!(out, "+x\n@@ -7,0 +8,1 @@\n+y\n+z\n");
}
