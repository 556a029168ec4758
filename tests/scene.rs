use usdz::{ParseError, Usd, UsdNode, UsdPart};

fn node(p: &UsdPart) -> &UsdNode {
    match p {
        UsdPart::Node(n) => n,
        UsdPart::Comment(_) => panic!("Expected node"),
    }
}

#[test]
fn comment_and_nested_nodes() {
    let usd = Usd::parse(b"# usda 1.0\ndef Xform \"hello\" { def Sphere \"world\" { } }").unwrap();
    assert_eq!(usd.parts.len(), 2);
    match &usd.parts[0] {
        UsdPart::Comment(c) => assert_eq!(c.0, " usda 1.0"),
        UsdPart::Node(_) => panic!("Expected comment"),
    }
    let hello = node(&usd.parts[1]);
    assert_eq!(hello.name, "hello");
    assert_eq!(hello.kind, "Xform");
    assert_eq!(hello.children.len(), 1);
    let world = node(&hello.children[0]);
    assert_eq!(world.name, "world");
    assert_eq!(world.kind, "Sphere");
    assert_eq!(world.children.len(), 0);
}

#[test]
fn empty_document_has_no_parts() {
    let usd = Usd::parse(b"").unwrap();
    assert_eq!(usd.parts.len(), 0);
    let blank = Usd::parse(b" \n\t\r\n").unwrap();
    assert_eq!(blank.parts.len(), 0);
}

#[test]
fn deep_nesting_is_kept() {
    let depth = 400;
    let mut text = String::new();
    for _ in 0..depth {
        text.push_str("def X \"n\" { ");
    }
    for _ in 0..depth {
        text.push_str("} ");
    }
    let usd = Usd::parse(text.as_bytes()).unwrap();
    assert_eq!(usd.parts.len(), 1);
    let mut cur = node(&usd.parts[0]);
    let mut seen = 1;
    while cur.children.len() == 1 {
        cur = node(&cur.children[0]);
        seen += 1;
    }
    assert_eq!(cur.children.len(), 0);
    assert_eq!(seen, depth);
}

#[test]
fn comments_inside_a_body() {
    let usd = Usd::parse(b"def Scope \"s\" {\n  # inner\n  def Mesh \"m\" {}\n}\n# tail").unwrap();
    assert_eq!(usd.parts.len(), 2);
    let s = node(&usd.parts[0]);
    assert_eq!(s.children.len(), 2);
    match &s.children[0] {
        UsdPart::Comment(c) => assert_eq!(c.0, " inner"),
        UsdPart::Node(_) => panic!("Expected comment"),
    }
    assert_eq!(node(&s.children[1]).kind, "Mesh");
    match &usd.parts[1] {
        UsdPart::Comment(c) => assert_eq!(c.0, " tail"),
        UsdPart::Node(_) => panic!("Expected comment"),
    }
}

#[test]
fn names_keep_non_ascii_text() {
    let usd = Usd::parse("def Xform \"héllo wörld\" {}".as_bytes()).unwrap();
    assert_eq!(node(&usd.parts[0]).name, "héllo wörld");
}

#[test]
fn invalid_utf8_is_invalid_encoding() {
    assert_eq!(Usd::parse(&[0x23, 0xC3, 0x28]).err(), Some(ParseError::InvalidEncoding));
}

#[test]
fn grammar_mismatches_fail_whole_document() {
    for text in [
        "def Xform \"a\" {",
        "def Xform \"a\" { } }",
        "def Xform \"a\" {} junk",
        "def Xform\"a\" {}",
        "defXform \"a\" {}",
        "def 3D \"a\" {}",
        "def Xform a {}",
        "def Xform \"a {}",
        "def Xform \"a\" { float x = 1 }",
        "}",
    ] {
        assert_eq!(Usd::parse(text.as_bytes()).err(), Some(ParseError::GrammarMismatch), "{}", text);
    }
}
