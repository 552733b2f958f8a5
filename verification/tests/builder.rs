use personal_website::html::Document;

#[test]
fn empty_document_serializes_with_doctype() {
    let doc = Document::new("html");
    assert_eq!(doc.serialize(), "<!DOCTYPE html>\n<html></html>");
}

#[test]
fn attributes_serialize_in_append_order() {
    let mut doc = Document::new("html");
    let root = doc.root();
    doc.attr(root, "lang", "en");
    doc.attr(root, "class", "wide");
    assert_eq!(
        doc.serialize(),
        "<!DOCTYPE html>\n<html lang=\"en\" class=\"wide\"></html>"
    );
}

#[test]
fn children_serialize_in_append_order() {
    let mut doc = Document::new("html");
    let root = doc.root();
    let first = doc.child(root, "header");
    let second = doc.child(root, "main");
    // Touch other nodes between appends: the order under `root` must not
    // move.
    doc.text(first, "one");
    let third = doc.child(root, "footer");
    doc.text(second, "two");
    doc.text(third, "three");
    assert_eq!(
        doc.serialize(),
        "<!DOCTYPE html>\n<html><header>one</header><main>two</main><footer>three</footer></html>"
    );
}

#[test]
fn a_child_handle_stays_usable_after_other_work() {
    let mut doc = Document::new("html");
    let root = doc.root();
    let list = doc.child(root, "ul");
    let a = doc.child(list, "li");
    let b = doc.child(list, "li");
    doc.text(b, "second");
    doc.text(a, "first");
    assert_eq!(
        doc.serialize(),
        "<!DOCTYPE html>\n<html><ul><li>first</li><li>second</li></ul></html>"
    );
}

#[test]
fn text_is_escaped() {
    let mut doc = Document::new("p");
    let root = doc.root();
    doc.text(root, "a < b & c");
    assert_eq!(doc.serialize(), "<!DOCTYPE html>\n<p>a &lt; b &amp; c</p>");
}

#[test]
fn raw_content_is_emitted_verbatim() {
    let mut doc = Document::new("div");
    let root = doc.root();
    doc.raw(root, "<b>bold</b>");
    assert_eq!(doc.serialize(), "<!DOCTYPE html>\n<div><b>bold</b></div>");
}

#[test]
fn attribute_values_are_escaped() {
    let mut doc = Document::new("div");
    let root = doc.root();
    doc.attr(root, "title", "say \"hi\" & <go>");
    assert_eq!(
        doc.serialize(),
        "<!DOCTYPE html>\n<div title=\"say &quot;hi&quot; &amp; &lt;go>\"></div>"
    );
}

#[test]
fn void_elements_have_no_closing_tag() {
    let mut doc = Document::new("head");
    let root = doc.root();
    let meta = doc.void_child(root, "meta");
    doc.attr(meta, "charset", "utf-8");
    doc.void_child(root, "br");
    assert_eq!(
        doc.serialize(),
        "<!DOCTYPE html>\n<head><meta charset=\"utf-8\"><br></head>"
    );
}

#[test]
fn serialization_is_idempotent() {
    let mut doc = Document::new("html");
    let root = doc.root();
    doc.text(root, "x");
    let once = doc.serialize();
    let twice = doc.serialize();
    assert_eq!(once, twice);
}

#[test]
fn deep_nesting_serializes_depth_first() {
    let mut doc = Document::new("html");
    let root = doc.root();
    let body = doc.child(root, "body");
    let outer = doc.child(body, "div");
    let inner = doc.child(outer, "span");
    doc.text(inner, "deep");
    assert_eq!(
        doc.serialize(),
        "<!DOCTYPE html>\n<html><body><div><span>deep</span></div></body></html>"
    );
}
