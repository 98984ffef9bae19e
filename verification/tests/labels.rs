use diffitrust::labels::{decimal, diff_status, docs_icon_svg, empty_state_text};

#[test]
fn decimal_like_to_string() {
    for n in [0usize, 1, 9, 10, 42, 100, 1234567, usize::MAX] {
        assert_eq!(decimal(n), n.to_string());
    }
}

#[test]
fn status_counts_differing_lines() {
    assert_eq!(diff_status(0, None), "Files are identical");
    assert_eq!(diff_status(1, None), "1 line differs");
    assert_eq!(diff_status(10, None), "10 lines differ");
    assert_eq!(diff_status(3, Some("Could not read")), "Could not read");
}

#[test]
fn empty_state_prompts() {
    let (title, subtitle) = empty_state_text(None);
    assert_eq!(title, "Drag Two Text Files Here");
    assert_eq!(subtitle, "Two plain text files, dropped together or one at a time");
    let (title, subtitle) = empty_state_text(Some("a.txt"));
    assert_eq!(title, "Drag Second File Here");
    assert_eq!(subtitle, "Loaded \"a.txt\" — drop second file to compare");
}

fn reference_icon(is_dark: bool) -> String {
    let (stroke, fill) = if is_dark { ("#a0a5b5", "#282a36") } else { ("#767676", "#ffffff") };
    format!(
        r##"<svg xmlns="http://www.w3.org/2000/svg" viewBox="10 14 86 106" fill="none" stroke="{stroke}" stroke-width="5.5" stroke-linecap="round" stroke-linejoin="round">
  <path d="M36 40V28C36 23.5 39.5 20 44 20H63L90 47V85C90 89.5 86.5 93 82 93H70" />
  <path d="M63 20V41C63 44.5 65.5 47 69 47H90" />
  <path d="M16 30C16 25.5 19.5 22 24 22H43L70 49V105C70 109.5 66.5 113 62 113H24C19.5 113 16 109.5 16 105V30Z" fill="{fill}" />
  <path d="M43 22V43C43 46.5 45.5 49 49 49H70" />
</svg>"##,
        stroke = stroke,
        fill = fill
    )
}

#[test]
fn icon_markup() {
    assert_eq!(docs_icon_svg(true), reference_icon(true));
    assert_eq!(docs_icon_svg(false), reference_icon(false));
}
