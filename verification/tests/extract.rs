use rust_finder::engine::extract;
use rust_finder::selector::Reason;

#[test]
fn descendant_vs_child() {
    let html = "<a><b><c/></b></a>";
    let desc = extract(html, "a c", 100).unwrap();
    assert_eq!(desc.len(), 1);
    assert_eq!(desc[0].tag, "c");
    let child = extract(html, "a > c", 100).unwrap();
    assert_eq!(child.len(), 0);
    let direct = extract(html, "a > b", 100).unwrap();
    assert_eq!(direct.len(), 1);
    assert_eq!(direct[0].tag, "b");
}

#[test]
fn id_class_attr_predicates() {
    let html = "<div id=\"x\" class=\"price big\"></div>";
    assert_eq!(extract(html, "#x", 10).unwrap().len(), 1);
    assert_eq!(extract(html, ".price", 10).unwrap().len(), 1);
    assert_eq!(extract(html, ".missing", 10).unwrap().len(), 0);
    assert_eq!(extract(html, "[class]", 10).unwrap().len(), 1);
    assert_eq!(extract(html, "div[class=big]", 10).unwrap().len(), 0);
    assert_eq!(extract(html, ".big", 10).unwrap().len(), 1);
}

#[test]
fn unclosed_li_become_siblings() {
    let html = "<ul><li>A<li>B</ul>";
    let items = extract(html, "li", 100).unwrap();
    assert_eq!(items.len(), 2);
    assert_eq!(items[0].text, "A");
    assert_eq!(items[1].text, "B");
}

#[test]
fn empty_selector_is_an_error() {
    let err = extract("<div></div>", "", 10).unwrap_err();
    assert_eq!(err.reason, Reason::EmptySelector);
    assert_eq!(err.position, 0);
    let err2 = extract("<div></div>", "   ", 10).unwrap_err();
    assert_eq!(err2.reason, Reason::EmptySelector);
}

#[test]
fn trailing_combinator_is_an_error() {
    let err = extract("<div></div>", "div >", 10).unwrap_err();
    assert_eq!(err.reason, Reason::DanglingCombinator);
    let err2 = extract("<div></div>", "div>", 10).unwrap_err();
    assert_eq!(err2.reason, Reason::DanglingCombinator);
}

#[test]
fn reserialization_round_trip() {
    let html = "<p class=\"x\">Hi <b>there</b></p>";
    let ms = extract(html, "p", 10).unwrap();
    assert_eq!(ms.len(), 1);
    assert_eq!(ms[0].tag, "p");
    assert_eq!(ms[0].text, "Hi there");
    assert_eq!(ms[0].attrs, vec![("class".to_string(), "x".to_string())]);
    assert_eq!(ms[0].html, "<p class=\"x\">Hi <b>there</b></p>");
}

#[test]
fn limit_zero_yields_nothing() {
    let html = "<div></div><div></div>";
    let ms = extract(html, "div", 0).unwrap();
    assert_eq!(ms.len(), 0);
}

#[test]
fn limit_caps_the_match_count() {
    let html = "<ul><li>1</li><li>2</li><li>3</li><li>4</li></ul>";
    assert_eq!(extract(html, "li", 2).unwrap().len(), 2);
    assert_eq!(extract(html, "li", 100).unwrap().len(), 4);
    let first_two = extract(html, "li", 2).unwrap();
    assert_eq!(first_two[0].text, "1");
    assert_eq!(first_two[1].text, "2");
}

#[test]
fn identical_inputs_give_identical_output() {
    let html = "<div id=\"a\">x</div><span class=\"b\">y</span>";
    let r1 = extract(html, "span.b", 10);
    let r2 = extract(html, "span.b", 10);
    assert_eq!(r1, r2);
    let r3 = extract(html, "div", 10).unwrap();
    let r4 = extract(html, "div", 10).unwrap();
    assert_eq!(r3, r4);
}

#[test]
fn matches_keep_document_order() {
    let html = "<i>1</i><em><i>2</i></em><i>3</i>";
    let ms = extract(html, "i", 100).unwrap();
    let texts: Vec<&str> = ms.iter().map(|m| m.text.as_str()).collect();
    assert_eq!(texts, vec!["1", "2", "3"]);
}

#[test]
fn malformed_markup_never_fails() {
    assert!(extract("<div", "div", 10).is_ok());
    assert!(extract("</div>", "div", 10).is_ok());
    assert!(extract("<a><b></a>", "b", 10).is_ok());
    assert!(extract("a < b and c > d", "div", 10).is_ok());
    let ms = extract("<div>open", "div", 10).unwrap();
    assert_eq!(ms.len(), 1);
    assert_eq!(ms[0].text, "open");
}

#[test]
fn comments_and_doctype_are_skipped() {
    let html = "<!DOCTYPE html><!-- a <div> in a comment --><p>ok</p>";
    let ms = extract(html, "p", 10).unwrap();
    assert_eq!(ms.len(), 1);
    assert_eq!(ms[0].text, "ok");
    assert_eq!(extract(html, "div", 10).unwrap().len(), 0);
}

#[test]
fn tag_matching_is_case_insensitive() {
    let html = "<DIV Class=\"a\">T</DIV>";
    let ms = extract(html, "div", 10).unwrap();
    assert_eq!(ms.len(), 1);
    assert_eq!(ms[0].tag, "div");
    assert_eq!(ms[0].attrs, vec![("class".to_string(), "a".to_string())]);
}

#[test]
fn attribute_value_forms() {
    let html = "<a href=/x data-k='q' disabled>t</a>";
    let ms = extract(html, "a", 10).unwrap();
    assert_eq!(ms.len(), 1);
    assert_eq!(
        ms[0].attrs,
        vec![
            ("href".to_string(), "/x".to_string()),
            ("data-k".to_string(), "q".to_string()),
            ("disabled".to_string(), "".to_string()),
        ]
    );
    assert_eq!(extract(html, "[disabled]", 10).unwrap().len(), 1);
    assert_eq!(extract(html, "a[href=/x]", 10).unwrap().len(), 1);
}

#[test]
fn duplicate_attribute_last_wins() {
    let html = "<p id=\"a\" id=\"b\"></p>";
    let ms = extract(html, "p", 10).unwrap();
    assert_eq!(ms[0].attrs, vec![("id".to_string(), "b".to_string())]);
    assert_eq!(extract(html, "#b", 10).unwrap().len(), 1);
    assert_eq!(extract(html, "#a", 10).unwrap().len(), 0);
}

#[test]
fn void_elements_take_no_children() {
    let html = "<div><br><span>s</span><img src=\"i.png\"></div>";
    let spans = extract(html, "div > span", 10).unwrap();
    assert_eq!(spans.len(), 1);
    let brs = extract(html, "br", 10).unwrap();
    assert_eq!(brs[0].html, "<br>");
    let imgs = extract(html, "img", 10).unwrap();
    assert_eq!(imgs[0].html, "<img src=\"i.png\">");
}

#[test]
fn selector_error_variants() {
    assert_eq!(
        extract("<p></p>", "#", 10).unwrap_err().reason,
        Reason::MissingName
    );
    assert_eq!(
        extract("<p></p>", "[a", 10).unwrap_err().reason,
        Reason::UnclosedBracket
    );
    assert_eq!(
        extract("<p></p>", "$", 10).unwrap_err().reason,
        Reason::UnexpectedChar
    );
}

#[test]
fn deep_descendant_matching() {
    let html = "<section><div><ul><li><span id=\"deep\">v</span></li></ul></div></section>";
    assert_eq!(extract(html, "section span", 10).unwrap().len(), 1);
    assert_eq!(extract(html, "section div ul > li span", 10).unwrap().len(), 1);
    assert_eq!(extract(html, "section > span", 10).unwrap().len(), 0);
}

#[test]
fn text_is_whitespace_normalized() {
    let html = "<div>  a\n  b\t <b>c</b>  </div>";
    let ms = extract(html, "div", 10).unwrap();
    assert_eq!(ms[0].text, "a b c");
}

#[test]
fn open_paragraph_closed_by_next() {
    let html = "<p>one<p>two";
    let ms = extract(html, "p", 10).unwrap();
    assert_eq!(ms.len(), 2);
    assert_eq!(ms[0].text, "one");
    assert_eq!(ms[1].text, "two");
}

#[test]
fn stray_close_tags_are_ignored() {
    let html = "<div><span>s</div></span><b>t</b>";
    let ms = extract(html, "div span", 10).unwrap();
    assert_eq!(ms.len(), 1);
    let bs = extract(html, "b", 10).unwrap();
    assert_eq!(bs.len(), 1);
    assert_eq!(bs[0].text, "t");
}

#[test]
fn processing_instructions_are_skipped() {
    let html = "<?xml version=\"1.0\"?><b>k</b>";
    let ms = extract(html, "b", 10).unwrap();
    assert_eq!(ms.len(), 1);
    assert_eq!(ms[0].text, "k");
}

#[test]
fn literal_angle_bracket_stays_text() {
    let html = "<div>a < b</div>";
    let ms = extract(html, "div", 10).unwrap();
    assert_eq!(ms.len(), 1);
    assert_eq!(ms[0].text, "a < b");
}

#[test]
fn selector_compiles_standalone() {
    let sel = rust_finder::selector::Selector::parse("ul > li.item").unwrap();
    assert_eq!(sel.tail.len(), 1);
    let bad = rust_finder::selector::Selector::parse(".").unwrap_err();
    assert_eq!(bad.reason, Reason::MissingName);
    assert_eq!(bad.position, 0);
}

#[test]
fn compound_predicates_all_required() {
    let html = "<div id=\"x\" class=\"price\" data-k=\"1\">a</div><div class=\"price\">b</div>";
    let ms = extract(html, "div#x.price[data-k=1]", 10).unwrap();
    assert_eq!(ms.len(), 1);
    assert_eq!(ms[0].text, "a");
    let all = extract(html, "div.price", 10).unwrap();
    assert_eq!(all.len(), 2);
}

#[test]
fn nested_same_tag_both_match() {
    let html = "<div id=\"outer\"><div id=\"inner\">x</div></div>";
    let ms = extract(html, "div div", 10).unwrap();
    assert_eq!(ms.len(), 1);
    assert_eq!(ms[0].attrs, vec![("id".to_string(), "inner".to_string())]);
    let both = extract(html, "div", 10).unwrap();
    assert_eq!(both.len(), 2);
    assert_eq!(both[0].attrs[0].1, "outer");
    assert_eq!(both[1].attrs[0].1, "inner");
}

#[test]
fn normalize_path_keeps_its_input() {
    assert_eq!(rust_finder::normalize_path("a/b/c.json"), "a/b/c.json");
    assert_eq!(rust_finder::normalize_path(""), "");
}
