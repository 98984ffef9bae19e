//! The texts the window shows: the summary of a comparison, the prompts of
//! the empty state and its document icon.

use vstd::prelude::*;

use crate::text::string_from_chars;

verus! {

broadcast use vstd::string::group_string_axioms;

/// The decimal digit for `d` (below 10).
pub open spec fn digit_char(d: nat) -> char {
    if d == 0 {
        '0'
    } else if d == 1 {
        '1'
    } else if d == 2 {
        '2'
    } else if d == 3 {
        '3'
    } else if d == 4 {
        '4'
    } else if d == 5 {
        '5'
    } else if d == 6 {
        '6'
    } else if d == 7 {
        '7'
    } else if d == 8 {
        '8'
    } else {
        '9'
    }
}

/// `n` written in decimal, without leading zeros.
pub open spec fn decimal_spec(n: nat) -> Seq<char>
    decreases n,
{
    if n < 10 {
        seq![digit_char(n)]
    } else {
        decimal_spec(n / 10).push(digit_char(n % 10))
    }
}

fn digit(d: usize) -> (c: char)
    requires
        d < 10,
    ensures
        c == digit_char(d as nat),
{
    if d == 0 {
        '0'
    } else if d == 1 {
        '1'
    } else if d == 2 {
        '2'
    } else if d == 3 {
        '3'
    } else if d == 4 {
        '4'
    } else if d == 5 {
        '5'
    } else if d == 6 {
        '6'
    } else if d == 7 {
        '7'
    } else if d == 8 {
        '8'
    } else {
        '9'
    }
}

fn decimal_chars(n: usize) -> (v: Vec<char>)
    ensures
        v@ == decimal_spec(n as nat),
    decreases n,
{
    if n < 10 {
        vec![digit(n)]
    } else {
        let mut v = decimal_chars(n / 10);
        v.push(digit(n % 10));
        v
    }
}

/// `n` written in decimal.
pub fn decimal(n: usize) -> (s: String)
    ensures
        s@ == decimal_spec(n as nat),
{
    let v = decimal_chars(n);
    string_from_chars(v.as_slice())
}

/// The status shown above a comparison.
pub open spec fn diff_status_spec(differ_count: nat, status_message: Option<Seq<char>>) -> Seq<char> {
    match status_message {
        Some(m) => m,
        None => if differ_count == 0 {
            "Files are identical"@
        } else if differ_count == 1 {
            "1 line differs"@
        } else {
            decimal_spec(differ_count) + " lines differ"@
        },
    }
}

/// The status shown above a comparison: the status message if there is one,
/// else how many lines differ.
pub fn diff_status(differ_count: usize, status_message: Option<&str>) -> (s: String)
    ensures
        s@ == diff_status_spec(
            differ_count as nat,
            match status_message {
                Some(m) => Some(m@),
                None => None,
            },
        ),
{
    match status_message {
        Some(m) => String::from_str(m),
        None => {
            if differ_count == 0 {
                String::from_str("Files are identical")
            } else if differ_count == 1 {
                String::from_str("1 line differs")
            } else {
                let mut s = decimal(differ_count);
                s.append(" lines differ");
                s
            }
        },
    }
}

/// The title and subtitle of the empty state.
pub open spec fn empty_state_spec(file_1_name: Option<Seq<char>>) -> (Seq<char>, Seq<char>) {
    match file_1_name {
        Some(name) => (
            "Drag Second File Here"@,
            "Loaded \""@ + name + "\" \u{2014} drop second file to compare"@,
        ),
        None => (
            "Drag Two Text Files Here"@,
            "Two plain text files, dropped together or one at a time"@,
        ),
    }
}

/// The title and subtitle of the empty state: they ask for the second file
/// once the first is loaded.
pub fn empty_state_text(file_1_name: Option<&str>) -> (r: (String, String))
    ensures
        (r.0@, r.1@) == empty_state_spec(
            match file_1_name {
                Some(n) => Some(n@),
                None => None,
            },
        ),
{
    match file_1_name {
        Some(name) => {
            let mut sub = String::from_str("Loaded \"");
            sub.append(name);
            sub.append("\" \u{2014} drop second file to compare");
            (String::from_str("Drag Second File Here"), sub)
        },
        None => (
            String::from_str("Drag Two Text Files Here"),
            String::from_str("Two plain text files, dropped together or one at a time"),
        ),
    }
}

/// The opening of the icon's markup, up to its stroke colour.
pub open spec fn icon_head() -> Seq<char> {
    "<svg xmlns=\"http://www.w3.org/2000/svg\" viewBox=\"10 14 86 106\" fill=\"none\" stroke=\""@
}

/// The icon's markup between its stroke colour and its fill colour.
pub open spec fn icon_middle() -> Seq<char> {
    "\" stroke-width=\"5.5\" stroke-linecap=\"round\" stroke-linejoin=\"round\">\n  <path d=\"M36 40V28C36 23.5 39.5 20 44 20H63L90 47V85C90 89.5 86.5 93 82 93H70\" />\n  <path d=\"M63 20V41C63 44.5 65.5 47 69 47H90\" />\n  <path d=\"M16 30C16 25.5 19.5 22 24 22H43L70 49V105C70 109.5 66.5 113 62 113H24C19.5 113 16 109.5 16 105V30Z\" fill=\""@
}

/// The rest of the icon's markup, after its fill colour.
pub open spec fn icon_tail() -> Seq<char> {
    "\" />\n  <path d=\"M43 22V43C43 46.5 45.5 49 49 49H70\" />\n</svg>"@
}

/// The stroke and fill colours of the icon.
pub open spec fn icon_colors(is_dark: bool) -> (Seq<char>, Seq<char>) {
    if is_dark {
        ("#a0a5b5"@, "#282a36"@)
    } else {
        ("#767676"@, "#ffffff"@)
    }
}

/// The SVG markup of the two-documents icon, in colours for a dark (or
/// light) theme.
pub fn docs_icon_svg(is_dark: bool) -> (s: String)
    ensures
        s@ == icon_head() + icon_colors(is_dark).0 + icon_middle() + icon_colors(is_dark).1 + icon_tail(),
{
    let (stroke, fill) = if is_dark {
        ("#a0a5b5", "#282a36")
    } else {
        ("#767676", "#ffffff")
    };
    let mut s = String::from_str(
        "<svg xmlns=\"http://www.w3.org/2000/svg\" viewBox=\"10 14 86 106\" fill=\"none\" stroke=\"",
    );
    s.append(stroke);
    s.append(
        "\" stroke-width=\"5.5\" stroke-linecap=\"round\" stroke-linejoin=\"round\">\n  <path d=\"M36 40V28C36 23.5 39.5 20 44 20H63L90 47V85C90 89.5 86.5 93 82 93H70\" />\n  <path d=\"M63 20V41C63 44.5 65.5 47 69 47H90\" />\n  <path d=\"M16 30C16 25.5 19.5 22 24 22H43L70 49V105C70 109.5 66.5 113 62 113H24C19.5 113 16 109.5 16 105V30Z\" fill=\"",
    );
    s.append(fill);
    s.append("\" />\n  <path d=\"M43 22V43C43 46.5 45.5 49 49 49H70\" />\n</svg>");
    s
}

} // verus!
