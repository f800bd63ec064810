use tinymd::convert::check_tag;
use tinymd::convert::classify_line;
use tinymd::convert::convert_lines;
use tinymd::convert::html_output_name;
use tinymd::convert::line_is_ok;
use tinymd::convert::process_line;
use tinymd::convert::ConvertError;
use tinymd::convert::LineKind;
use tinymd::convert::TagState;

fn lines(input: &[&str]) -> Vec<String> {
    input.iter().map(|s| s.to_string()).collect()
}

#[test]
fn correct_header() {
    let mut bool_change = true;
    assert_eq!("<h1>", check_tag(&mut bool_change, "<h1>"));
    assert_eq!(false, bool_change);
}

#[test]
fn check_tag_toggles_back() {
    let mut flag = false;
    assert_eq!("</p>\n", check_tag(&mut flag, "</p>\n"));
    assert_eq!(true, flag);
    assert_eq!("</p>\n", check_tag(&mut flag, "</p>\n"));
    assert_eq!(false, flag);
}

#[test]
fn classifies_by_first_character() {
    assert_eq!(LineKind::Heading, classify_line("# Title"));
    assert_eq!(LineKind::Heading, classify_line("#x"));
    assert_eq!(LineKind::Blank, classify_line(""));
    assert_eq!(LineKind::Content, classify_line("plain text"));
    assert_eq!(LineKind::Content, classify_line(" # not a heading"));
}

#[test]
fn accepts_all_but_bare_marker() {
    assert!(line_is_ok(""));
    assert!(line_is_ok("text"));
    assert!(line_is_ok("# Title"));
    assert!(line_is_ok("#x"));
    assert!(!line_is_ok("#"));
}

#[test]
fn single_heading_line() {
    let out = convert_lines(&lines(&["# Title"])).unwrap();
    assert_eq!(vec!["<h1>Title</h1>\n".to_string()], out);
}

#[test]
fn single_content_line() {
    let out = convert_lines(&lines(&["Hello world"])).unwrap();
    assert_eq!(vec!["<p>Hello world</p>\n".to_string()], out);
}

#[test]
fn blank_line_emits_nothing() {
    let out = convert_lines(&lines(&["# Title", "", "Body text"])).unwrap();
    assert_eq!(
        vec!["<h1>Title</h1>\n".to_string(), "<p>Body text</p>\n".to_string()],
        out
    );
}

#[test]
fn blank_between_two_content_lines() {
    let out = convert_lines(&lines(&["one", "", "two"])).unwrap();
    assert_eq!(
        vec!["<p>one</p>\n".to_string(), "<p>two</p>\n".to_string()],
        out
    );
}

#[test]
fn only_a_blank_line_gives_empty_output() {
    let out = convert_lines(&lines(&[""])).unwrap();
    assert!(out.is_empty());
}

#[test]
fn empty_input_gives_empty_output() {
    let out = convert_lines(&lines(&[])).unwrap();
    assert!(out.is_empty());
}

#[test]
fn consecutive_blank_lines_give_empty_output() {
    let out = convert_lines(&lines(&["", "", ""])).unwrap();
    assert!(out.is_empty());
}

#[test]
fn heading_with_empty_body_is_kept() {
    let out = convert_lines(&lines(&["# "])).unwrap();
    assert_eq!(vec!["<h1></h1>\n".to_string()], out);
    let out = convert_lines(&lines(&["#x"])).unwrap();
    assert_eq!(vec!["<h1></h1>\n".to_string()], out);
}

#[test]
fn bare_marker_is_reported_with_its_line() {
    assert_eq!(
        Err(ConvertError { line_number: 0 }),
        convert_lines(&lines(&["#"]))
    );
    assert_eq!(
        Err(ConvertError { line_number: 2 }),
        convert_lines(&lines(&["fine", "# fine too", "#", "#"]))
    );
}

#[test]
fn conversion_is_idempotent() {
    let input = lines(&["# Title", "", "Body text", "more", "# Again"]);
    let first = convert_lines(&input).unwrap();
    let second = convert_lines(&input).unwrap();
    assert_eq!(first, second);
}

#[test]
fn process_line_closes_open_paragraph_before_heading() {
    let open = TagState {
        heading_open: false,
        paragraph_open: true,
    };
    let (state, out) = process_line(open, "# Title");
    assert_eq!("</p>\n<h1>Title</h1>\n", out.unwrap());
    assert_eq!(
        TagState {
            heading_open: false,
            paragraph_open: false
        },
        state
    );
}

#[test]
fn process_line_continues_open_paragraph() {
    let open = TagState {
        heading_open: false,
        paragraph_open: true,
    };
    let (state, out) = process_line(open, "tail");
    assert_eq!("tail</p>\n", out.unwrap());
    assert!(!state.paragraph_open);
}

#[test]
fn process_line_keeps_state_over_blank() {
    let open = TagState {
        heading_open: false,
        paragraph_open: true,
    };
    let (state, out) = process_line(open, "");
    assert!(out.is_none());
    assert_eq!(open, state);
}

#[test]
fn output_name_replaces_md_extension() {
    assert_eq!(Some("file.html".to_string()), html_output_name("file.md"));
    assert_eq!(Some("ab.html".to_string()), html_output_name("ab.md"));
    assert_eq!(Some("a.html".to_string()), html_output_name("a.md"));
}

#[test]
fn output_name_rejects_short_or_foreign_names() {
    assert_eq!(None, html_output_name(".md"));
    assert_eq!(None, html_output_name("md"));
    assert_eq!(None, html_output_name(""));
    assert_eq!(None, html_output_name("file.txt"));
    assert_eq!(None, html_output_name("file"));
}
