use gawsh::highlight::highlight;
use gawsh::page::{
    ambiguous_extensions, append_decimal, extension_of, fragments_of, render_artifact,
    render_table, split_lines,
};

fn names(list: &[&str]) -> Vec<Vec<u8>> {
    list.iter().map(|name| name.as_bytes().to_vec()).collect()
}

fn lines(list: &[&str]) -> Vec<Vec<u8>> {
    names(list)
}

#[test]
fn the_extension_follows_the_last_dot() {
    assert_eq!(extension_of(b"a.txt"), b"txt".to_vec());
    assert_eq!(extension_of(b"a.tar.gz"), b"gz".to_vec());
    assert_eq!(extension_of(b".a.b"), b"b".to_vec());
}

#[test]
fn some_names_have_the_empty_extension() {
    assert_eq!(extension_of(b""), Vec::<u8>::new());
    assert_eq!(extension_of(b"Makefile"), Vec::<u8>::new());
    assert_eq!(extension_of(b".bashrc"), Vec::<u8>::new());
    assert_eq!(extension_of(b"a."), Vec::<u8>::new());
    assert_eq!(extension_of(b"."), Vec::<u8>::new());
    assert_eq!(extension_of(b".."), Vec::<u8>::new());
}

#[test]
fn extensions_are_ambiguous_where_two_differ() {
    assert!(ambiguous_extensions(&names(&["x.py", "x.txt"])));
    assert!(ambiguous_extensions(&names(&["x.py", "y.py", "README"])));
    assert!(!ambiguous_extensions(&names(&["x.py", "y.py"])));
    assert!(!ambiguous_extensions(&names(&["x.py"])));
    assert!(!ambiguous_extensions(&names(&["README", ".hidden"])));
    assert!(!ambiguous_extensions(&Vec::new()));
}

#[test]
fn a_text_is_cut_at_its_newlines() {
    assert_eq!(split_lines(b""), Vec::<Vec<u8>>::new());
    assert_eq!(split_lines(b"a"), lines(&["a"]));
    assert_eq!(split_lines(b"a\n"), lines(&["a"]));
    assert_eq!(split_lines(b"a\nb"), lines(&["a", "b"]));
    assert_eq!(split_lines(b"a\n\nb\n"), lines(&["a", "", "b"]));
    assert_eq!(split_lines(b"\n"), lines(&[""]));
}

#[test]
fn a_carriage_return_before_a_newline_is_no_part_of_the_line() {
    assert_eq!(split_lines(b"a\r\nb\r\n"), lines(&["a", "b"]));
    assert_eq!(split_lines(b"a\r\r\nb"), lines(&["a\r", "b"]));
    assert_eq!(split_lines(b"a\rb\n"), lines(&["a\rb"]));
    // The last line, which no newline ends, keeps its carriage return.
    assert_eq!(split_lines(b"a\nb\r"), lines(&["a", "b\r"]));
}

#[test]
fn what_closes_the_last_line_belongs_to_it() {
    assert_eq!(fragments_of(b"<s>hi\n</s>", true), lines(&["<s>hi</s>"]));
    assert_eq!(fragments_of(b"<s>a\nb\n</s>", true), lines(&["<s>a", "b</s>"]));
    // A text that ends without a newline has its last line behind the last newline.
    assert_eq!(fragments_of(b"<s>a\nb</s>", false), lines(&["<s>a", "b</s>"]));
    // Nothing stands behind the last newline: nothing is joined.
    assert_eq!(fragments_of(b"a\nb\n", true), lines(&["a", "b"]));
    assert_eq!(fragments_of(b"a", true), lines(&["a"]));
    assert_eq!(fragments_of(b"", true), Vec::<Vec<u8>>::new());
}

#[test]
fn numbers_are_written_in_base_ten() {
    let cases: [(usize, &str); 7] =
        [(0, "0"), (7, "7"), (9, "9"), (10, "10"), (42, "42"), (100, "100"), (90210, "90210")];
    for (number, digits) in cases.iter() {
        let mut out = b"L".to_vec();
        append_decimal(&mut out, *number);
        assert_eq!(out, format!("L{}", digits).into_bytes());
    }
    let mut out = Vec::new();
    append_decimal(&mut out, usize::MAX);
    assert_eq!(out, format!("{}", usize::MAX).into_bytes());
}

#[test]
fn a_table_of_no_lines_has_no_rows() {
    assert_eq!(render_table(&Vec::new()), b"<table></table>".to_vec());
}

#[test]
fn a_table_has_one_numbered_row_for_each_line() {
    let table = String::from_utf8(render_table(&lines(&["first", "<b>second</b>"]))).unwrap();
    assert_eq!(
        table,
        "<table>\
         <tr id=\"L1\"><td class=\"gawsh-line-number\"><a href=\"#L1\"><pre>1</pre></a></td>\
         <td class=\"gawsh-line-content-wrapper\"><pre class=\"gawsh-line-content\">first</pre></td></tr>\
         <tr id=\"L2\"><td class=\"gawsh-line-number\"><a href=\"#L2\"><pre>2</pre></a></td>\
         <td class=\"gawsh-line-content-wrapper\"><pre class=\"gawsh-line-content\"><b>second</b></pre></td></tr>\
         </table>"
    );
}

#[test]
fn the_rows_of_a_long_table_are_numbered_on() {
    let many: Vec<Vec<u8>> = (0..12).map(|_| b"x".to_vec()).collect();
    let table = String::from_utf8(render_table(&many)).unwrap();
    assert_eq!(table.matches("<tr ").count(), 12);
    assert!(table.contains("<tr id=\"L10\"><td class=\"gawsh-line-number\"><a href=\"#L10\"><pre>10</pre>"));
    assert!(table.contains("<tr id=\"L12\">"));
    assert!(!table.contains("<tr id=\"L13\">"));
}

#[test]
fn the_artifact_is_the_table_of_the_highlighted_lines() {
    let content = b"fn main() {}\nlet x = 1;\n";
    let artifact = render_artifact(content, &names(&["main.rs"])).unwrap();
    let markup = highlight("fn main() {}\nlet x = 1;\n", "rs").unwrap();
    let expected = render_table(&fragments_of(markup.as_bytes(), true));
    assert_eq!(artifact, expected);
    let text = String::from_utf8(artifact).unwrap();
    assert_eq!(text.matches("<tr ").count(), 2);
    assert!(text.contains("gawsh-rust"));
}

#[test]
fn only_the_first_name_hints_at_the_language() {
    let content = b"print('hi')\n";
    let as_python = render_artifact(content, &names(&["x.py", "x.txt"])).unwrap();
    let as_text = render_artifact(content, &names(&["x.txt", "x.py"])).unwrap();
    assert_eq!(as_python, render_artifact(content, &names(&["x.py"])).unwrap());
    assert_eq!(as_text, render_artifact(content, &names(&["x.txt"])).unwrap());
    assert_ne!(as_python, as_text);
    assert!(String::from_utf8(as_python).unwrap().contains("gawsh-python"));
    assert!(String::from_utf8(as_text).unwrap().contains("gawsh-plain"));
}

#[test]
fn bytes_that_encode_no_text_are_replaced() {
    let artifact = render_artifact(b"caf\xe9\n", &names(&["a.txt"])).unwrap();
    let text = String::from_utf8(artifact).unwrap();
    assert!(text.contains("caf\u{fffd}"));
    assert_eq!(text.matches("<tr ").count(), 1);
}

#[test]
fn a_blob_without_a_name_is_highlighted_without_a_hint() {
    let content = b"fn main() {}\n";
    assert_eq!(
        render_artifact(content, &Vec::new()),
        render_artifact(content, &names(&[""]))
    );
    assert_eq!(
        render_artifact(content, &Vec::new()),
        render_artifact(content, &names(&["README"]))
    );
}
