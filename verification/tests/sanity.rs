use libyaml_safer::{Document, Emitter, Parser};

#[test]
fn sanity() {
    const SANITY_INPUT: &str = r#"unicode: "Sosa did fine.\u263A"
control: "\b1998\t1999\t2000\n"
hex esc: "\x0d\x0a is \r\n"

single: '"Howdy!" he cried.'
quoted: ' # Not a ''comment''.'
tie-fighter: '|\-*-/|'
"#;
    const SANITY_OUTPUT: &str = r#"unicode: "Sosa did fine.\u263A"
control: "\b1998\t1999\t2000\n"
hex esc: "\r\n is \r\n"
single: '"Howdy!" he cried.'
quoted: ' # Not a ''comment''.'
tie-fighter: '|\-*-/|'
"#;
    let mut parser = Parser::new();
    let read_in = SANITY_INPUT.as_bytes();
    parser.set_input_string(read_in);
    let doc = Document::load(&mut parser).unwrap();

    let mut emitter = Emitter::new();
    doc.dump(&mut emitter).unwrap();
    let output = emitter.take_output();
    let output_str = core::str::from_utf8(&output).expect("invalid UTF-8");
    assert_eq!(output_str, SANITY_OUTPUT);
}
