use subdo::path::EntryPath;
use subdo::process::Output;
use subdo::show::{Channel, Printer, Shown, Write};

fn wrote(entry: &str, stdout: &str, stderr: &str) -> Shown {
    Ok((
        EntryPath::new(entry.as_bytes().to_vec()),
        Output { code: Some(1), stdout: stdout.as_bytes().to_vec(), stderr: stderr.as_bytes().to_vec() },
    ))
}

fn sent(writes: &[Write], channel: Channel) -> String {
    let bytes: Vec<u8> = writes
        .iter()
        .filter(|write| write.channel == channel)
        .flat_map(|write| write.bytes.clone())
        .collect();
    String::from_utf8(bytes).unwrap()
}

#[test]
fn first_page_has_no_line_ahead() {
    let writes: Vec<Write> = Printer::new().print(wrote("/a", "out\n", ""));
    assert_eq!(sent(&writes, Channel::Stdout), "/a:\nout\n");
    assert_eq!(sent(&writes, Channel::Stderr), "");
    assert_eq!(writes.len(), 2);
}

#[test]
fn error_output_comes_with_a_warning() {
    let writes: Vec<Write> = Printer::new().print(wrote("/a", "out\n", "bad\n"));
    assert_eq!(sent(&writes, Channel::Stdout), "/a:\nout\n");
    assert_eq!(sent(&writes, Channel::Stderr), "\nWarning:\nbad\n");
}

#[test]
fn errors_go_to_the_error_output() {
    let writes: Vec<Write> = Printer::new().print(Err("no luck".to_string()));
    assert_eq!(sent(&writes, Channel::Stdout), "");
    assert_eq!(sent(&writes, Channel::Stderr), "no luck\n");
}

#[test]
fn pages_are_one_empty_line_apart() {
    let mut printer: Printer = Printer::new();
    let mut writes: Vec<Write> = printer.print(wrote("/a", "1\n", ""));
    writes.extend(printer.print(Err("no luck".to_string())));
    writes.extend(printer.print(wrote("/b", "2\n", "w\n")));
    assert_eq!(sent(&writes, Channel::Stdout), "/a:\n1\n\n\n/b:\n2\n");
    assert_eq!(sent(&writes, Channel::Stderr), "no luck\n\nWarning:\nw\n");
    assert!(!printer.first);
}

#[test]
fn bytes_that_are_no_text_are_passed_on() {
    let output = Output { code: None, stdout: vec![0xff, 0x00], stderr: vec![] };
    let writes: Vec<Write> = Printer::new().print(Ok((EntryPath::new(vec![0xff]), output)));
    assert_eq!(writes[0].bytes, "\u{fffd}:\n".as_bytes());
    assert_eq!(writes[1].bytes, vec![0xff, 0x00]);
}
