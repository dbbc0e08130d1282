use lipl::from_reader::parts_from_reader;
use lipl::parts::{parse_markdown, to_parts, to_text};

#[test]
fn to_parts1() {
    let test = "\r  Hallo allema  \t";
    assert_eq!(
        parts_from_reader(test.as_bytes()).unwrap().parts(),
        vec![vec!["Hallo allema".to_owned()]]
    );
}

#[test]
fn to_parts2() {
    let test = "\rHallo allema\n \t\nJaJa\r\nNee  \t";
    assert_eq!(
        parts_from_reader(test.as_bytes()).unwrap().parts(),
        vec![
            vec!["Hallo allema".to_owned()],
            vec!["JaJa".to_owned(), "Nee".to_owned()]
        ]
    );
}

#[test]
fn test_to_parts() {
    let test = "Hallo\nAllemaal\r\n\nWat fijn  \n\r\n";
    let result = to_parts(test);
    assert_eq!(result.len(), 2);
    assert_eq!(&result[0][0], "Hallo");
    assert_eq!(&result[0][1], "Allemaal");
    assert_eq!(result[0].len(), 2);
    assert_eq!(&result[1][0], "Wat fijn");
    assert_eq!(result[1].len(), 1);
}

#[test]
fn test_parse_markdown() {
    let test = "---\nyaml: is_fine\n---\n\nAllemaal\r\n\nWat fijn  \n\r\n".to_owned();
    let result = parse_markdown(test, "---");
    assert_eq!(result.parts, vec![vec!["Allemaal"], vec!["Wat fijn"]]);
    assert_eq!(result.frontmatter, Some("yaml: is_fine".to_owned()))
}

#[test]
fn test_parse_markdown_no_content() {
    let test = "---\nyaml: is_fine\n---".to_owned();
    let result = parse_markdown(test, "---");
    assert!(result.parts.is_empty());
    assert_eq!(result.frontmatter, Some("yaml: is_fine".to_owned()))
}

#[test]
fn to_parts_of_to_text_gives_the_parts_back() {
    let parts = vec![
        vec!["Een".to_owned(), "Twee".to_owned()],
        vec!["Drie".to_owned()],
    ];
    let text = to_text(&parts);
    assert_eq!(text, "Een\nTwee\n\nDrie");
    assert_eq!(to_parts(&text), parts);
}

#[test]
fn to_parts_of_blank_text_is_empty() {
    assert!(to_parts("").is_empty());
    assert!(to_parts(" \n\t\n").is_empty());
}

#[test]
fn parse_markdown_without_front_matter() {
    let result = parse_markdown("Regel een\n\nRegel twee".to_owned(), "---");
    assert_eq!(result.frontmatter, None);
    assert_eq!(result.parts, vec![vec!["Regel een"], vec!["Regel twee"]]);
}

#[test]
fn parts_from_reader_stops_parts_at_invalid_utf8() {
    let bytes: Vec<u8> = vec![b'a', b'\n', 0xff, b'\n', b'b'];
    let parts = parts_from_reader(&bytes).unwrap().parts();
    assert_eq!(parts[0], vec!["a".to_owned()]);
}
