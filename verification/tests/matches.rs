use minify_selectors::html_attributes::init;
use minify_selectors::markup::{
    analyse_html_attribute, html_escape, rewrite_html_attribute, rewrite_html_script,
    rewrite_html_style,
};
use minify_selectors::parse_selectors::{
    marker_key, rewrite_anchor, rewrite_argument, rewrite_prefixed_match, rewrite_token,
};
use minify_selectors::registry::{SelectorUsage, Selectors};
use minify_selectors::scan::{convert, index_table, span_of, Capture};
use minify_selectors::script::{
    analyse_js_argument, analyse_js_property, js_escape, rewrite_js_argument,
    rewrite_js_property,
};
use minify_selectors::style::{
    analyse_css_attribute, css_escape, rewrite_css_attribute, rewrite_css_function,
    rewrite_css_selector,
};

fn capture(groups: &[Option<&str>]) -> Capture {
    Capture {
        start: 0,
        end: groups[0].map(|whole| whole.chars().count()).unwrap_or(0),
        groups: groups.iter().map(|group| group.map(|text| text.to_string())).collect(),
    }
}

fn registry(names: &[(&str, &str)]) -> Selectors {
    let mut selectors = Selectors::new();
    for (key, replacement) in names {
        selectors.add(key.to_string(), Some(SelectorUsage::Style));
        selectors
            .map
            .get_mut(*key)
            .unwrap()
            .set_replacement(replacement.to_string());
    }
    selectors
}

fn keys(selectors: &Selectors) -> Vec<String> {
    selectors.map.keys().cloned().collect()
}

#[test]
fn reports_become_matches() {
    // a: byte 0; e acute: bytes 1 and 2; space: byte 3; b: byte 4.
    let chars: Vec<char> = "a\u{e9} b".chars().collect();
    let table = index_table(&chars);
    assert_eq!(table, vec![Some(0), Some(1), None, Some(2), Some(3), Some(4)]);
    assert_eq!(span_of(&chars, &table, Some((1, 3))), Some((1, 2)));
    assert_eq!(span_of(&chars, &table, Some((5, 5))), Some((4, 4)));
    assert_eq!(span_of(&chars, &table, Some((2, 3))), None);
    assert_eq!(span_of(&chars, &table, Some((3, 1))), None);
    assert_eq!(span_of(&chars, &table, Some((1, 6))), None);
    assert_eq!(span_of(&chars, &table, None), None);
    let found = convert(&chars, &table, &vec![Some((1, 4)), None, Some((3, 3)), Some((2, 9))]).unwrap();
    assert_eq!((found.start, found.end), (1, 3));
    assert_eq!(
        found.groups,
        vec![Some("\u{e9} ".to_string()), None, Some("".to_string()), None]
    );
    assert!(convert(&chars, &table, &vec![]).is_none());
    assert!(convert(&chars, &table, &vec![None, Some((0, 1))]).is_none());
    assert!(convert(&chars, &table, &vec![Some((2, 4))]).is_none());
}

#[test]
fn escapes_by_group() {
    assert_eq!(css_escape(&capture(&[Some("\\26 "), Some("\\26 "), None])), "&");
    assert_eq!(css_escape(&capture(&[Some("\\:"), None, Some("\\:")])), ":");
    assert_eq!(css_escape(&capture(&[Some("\\zz"), Some("\\zz"), None])), "\\zz");
    assert_eq!(css_escape(&capture(&[Some("x")])), "x");
    assert_eq!(js_escape(&capture(&[Some("%41"), Some("%41"), None, None, None])), "A");
    assert_eq!(js_escape(&capture(&[Some("\\x41"), None, Some("\\x41"), None, None])), "A");
    assert_eq!(js_escape(&capture(&[Some("\\u0041"), None, None, Some("\\u0041"), None])), "A");
    assert_eq!(js_escape(&capture(&[Some("\\u{41}"), None, None, None, Some("\\u{41}")])), "A");
    assert_eq!(js_escape(&capture(&[Some("\\u{}"), None, None, None, Some("\\u{}")])), "\\u{}");
    assert_eq!(html_escape(&capture(&[Some("&#x41;"), Some("&#x41;"), None, None])), "A");
    assert_eq!(html_escape(&capture(&[Some("&#65;"), None, Some("&#65;"), None])), "A");
    assert_eq!(html_escape(&capture(&[Some("&lt;"), None, None, Some("&lt;")])), "<");
    assert_eq!(html_escape(&capture(&[Some("&zz;"), None, None, Some("&zz;")])), "\\26zz\\3B");
    assert_eq!(html_escape(&capture(&[Some("&#x;"), Some("&#x;"), None, None])), "&#x;");
}

#[test]
fn markers_by_group() {
    let selectors = registry(&[(".foo", "a"), ("#foo", "b")]);
    let class = capture(&[Some("__class--foo"), Some(""), Some("class"), Some("foo")]);
    let id = capture(&[Some("__id--foo"), Some(""), Some("id"), Some("foo")]);
    let sigil = capture(&[Some("#__--foo"), Some("#"), Some(""), Some("foo")]);
    let ignore = capture(&[Some(".__ignore--foo"), Some("."), Some("ignore"), Some("foo")]);
    let unknown = capture(&[Some(".__--bar "), Some("."), Some(""), Some("bar ")]);
    assert_eq!(marker_key(&class), ".foo");
    assert_eq!(marker_key(&id), "#foo");
    assert_eq!(marker_key(&sigil), "#foo");
    assert_eq!(rewrite_prefixed_match(&class, &selectors), "a");
    assert_eq!(rewrite_prefixed_match(&id, &selectors), "b");
    assert_eq!(rewrite_prefixed_match(&sigil, &selectors), "#b");
    assert_eq!(rewrite_prefixed_match(&ignore, &selectors), ".foo");
    assert_eq!(rewrite_prefixed_match(&unknown, &selectors), ".bar");
}

#[test]
fn names_arguments_and_links_by_group() {
    let selectors = registry(&[(".foo", "a"), ("#top", "b")]);
    let dot = ".".to_string();
    assert_eq!(rewrite_token(&capture(&[Some("foo"), Some("foo")]), &selectors, &dot), "a");
    assert_eq!(rewrite_token(&capture(&[Some("bar"), Some("bar")]), &selectors, &dot), "bar");
    let string = capture(&[Some("'foo'"), Some("'foo'"), Some("'"), Some("foo"), None, None, None]);
    let expression = capture(&[Some("foo"), None, None, None, Some("foo"), None, None]);
    assert_eq!(rewrite_argument(&string, &selectors, &dot), "'a'");
    assert_eq!(rewrite_argument(&expression, &selectors, &dot), "foo");
    let link = capture(&[Some("x.html#top"), Some("x.html"), Some("#top")]);
    let far = capture(&[Some("//x.org/#top"), None, None]);
    let other = capture(&[Some("x.html#end"), Some("x.html"), Some("#end")]);
    assert_eq!(rewrite_anchor(&link, &selectors), "x.html#b");
    assert_eq!(rewrite_anchor(&far, &selectors), "//x.org/#top");
    assert_eq!(rewrite_anchor(&other, &selectors), "x.html#end");
}

#[test]
fn style_sheet_matches_by_group() {
    let list = init(&vec![("data-target".to_string(), "selector".to_string())]);
    let selectors = registry(&[(".foo", "a"), ("#top", "b")]);
    let class = capture(&[Some(".foo"), Some("."), Some("foo")]);
    let body = capture(&[Some("{ color: red }"), None, None]);
    assert_eq!(rewrite_css_selector(&class, &selectors), ".a");
    assert_eq!(rewrite_css_selector(&body, &selectors), "{ color: red }");
    let function = capture(&[Some("url( \"#top"), Some("url"), Some("( "), Some("\""), Some("#top")]);
    assert_eq!(rewrite_css_function(&function, &selectors), "url( \"#b");
    let attribute = capture(&[
        Some("[ class ~= \"foo\" s ]"),
        Some("class"),
        Some("~="),
        Some("\""),
        Some("foo"),
        Some(" "),
        Some("s"),
    ]);
    assert_eq!(rewrite_css_attribute(&attribute, &selectors, &list, 4), "[class~=\"a\" s]");
    let insensitive = capture(&[
        Some("[class=foo i]"),
        Some("class"),
        Some("="),
        Some(""),
        Some("foo"),
        Some(" "),
        Some("i"),
    ]);
    assert_eq!(rewrite_css_attribute(&insensitive, &selectors, &list, 4), "[class=foo i]");
    let other = capture(&[
        Some("[title=foo]"),
        Some("title"),
        Some("="),
        Some(""),
        Some("foo"),
        Some(""),
        Some(""),
    ]);
    assert_eq!(rewrite_css_attribute(&other, &selectors, &list, 4), "[title=foo]");
    let comment = capture(&[Some("/* [class=foo] */"), None, None, None, None, None, None]);
    assert_eq!(rewrite_css_attribute(&comment, &selectors, &list, 4), "/* [class=foo] */");
    let mut read = Selectors::new();
    analyse_css_attribute(&attribute, &mut read, &list, 4);
    analyse_css_attribute(&insensitive, &mut read, &list, 4);
    analyse_css_attribute(&comment, &mut read, &list, 4);
    assert_eq!(keys(&read), vec![".foo"]);
    assert_eq!(read.map.get(".foo").unwrap().style_counter, 1);
}

#[test]
fn markup_matches_by_group() {
    let list = init(&vec![("data-x".to_string(), "nothing".to_string())]);
    let selectors = registry(&[(".foo", "a"), ("#top", "b")]);
    let class = capture(&[Some("class = 'foo"), Some("class"), Some(" = "), Some("'"), Some("foo")]);
    assert_eq!(rewrite_html_attribute(&class, &selectors, &list, 4), "class = 'a");
    let unknown = capture(&[Some("data-x=foo"), Some("data-x"), Some("="), Some(""), Some("foo")]);
    assert_eq!(rewrite_html_attribute(&unknown, &selectors, &list, 4), "data-x=foo");
    let code = capture(&[Some("<code class=\"foo\">.foo</code>"), None, None, None, None]);
    assert_eq!(
        rewrite_html_attribute(&code, &selectors, &list, 4),
        "<code class=\"a\">.foo</code>"
    );
    assert_eq!(
        rewrite_html_attribute(&code, &selectors, &list, 0),
        "<code class=\"foo\">.foo</code>"
    );
    let comment = capture(&[Some("<!-- class=\"foo\" -->"), None, None, None, None]);
    assert_eq!(rewrite_html_attribute(&comment, &selectors, &list, 4), "<!-- class=\"foo\" -->");
    let script = capture(&[
        Some("<script>x.className = 'foo';</script>"),
        Some("<script>"),
        Some("x.className = 'foo';"),
        Some("</script>"),
    ]);
    assert_eq!(
        rewrite_html_script(&script, &selectors, &list, 4),
        "<script>x.className = 'a';</script>"
    );
    assert_eq!(
        rewrite_html_script(&script, &selectors, &list, 0),
        "<script>x.className = 'foo';</script>"
    );
    let style = capture(&[
        Some("<style>.foo{}</style>"),
        Some("<style>"),
        Some(".foo{}"),
        Some("</style>"),
    ]);
    assert_eq!(rewrite_html_style(&style, &selectors, &list, 4), "<style>.a{}</style>");
    let mut read = Selectors::new();
    analyse_html_attribute(&class, &mut read, &list, None, 4);
    analyse_html_attribute(&unknown, &mut read, &list, None, 4);
    analyse_html_attribute(&code, &mut read, &list, None, 4);
    assert_eq!(keys(&read), vec![".foo"]);
    assert_eq!(read.map.get(".foo").unwrap().markup_class_counter, 2);
}

#[test]
fn script_matches_by_group() {
    let list = init(&vec![]);
    let selectors = registry(&[(".foo", "a"), ("#top", "b")]);
    let call = capture(&[
        Some(".classList . add('foo', bar"),
        Some(".classList . add"),
        Some("("),
        Some("'foo', bar"),
        Some("'"),
    ]);
    let call_tight = capture(&[
        Some(".classList .add('foo', bar"),
        Some(".classList .add"),
        Some("("),
        Some("'foo', bar"),
        Some("'"),
    ]);
    assert_eq!(rewrite_js_argument(&call_tight, &selectors, &list, 4), ".classList .add('a', bar");
    assert_eq!(rewrite_js_argument(&call, &selectors, &list, 4), ".classList . add('a', bar");
    let by_id = capture(&[
        Some(".getElementById(\"\\x74op\""),
        Some(".getElementById"),
        Some("("),
        Some("\"\\x74op\""),
        Some("\""),
    ]);
    assert_eq!(rewrite_js_argument(&by_id, &selectors, &list, 4), ".getElementById(\"b\"");
    let comment = capture(&[Some("// .getElementById('top')"), None, None, None, None]);
    assert_eq!(
        rewrite_js_argument(&comment, &selectors, &list, 4),
        "// .getElementById('top')"
    );
    let property = capture(&[
        Some(".id = 'top'"),
        Some(".id"),
        None,
        Some(" = "),
        Some("'top'"),
    ]);
    assert_eq!(rewrite_js_property(&property, &selectors, &list, 4), ".id = 'b'");
    let mut read = Selectors::new();
    analyse_js_argument(&call, &mut read, &list, 4);
    analyse_js_argument(&by_id, &mut read, &list, 4);
    analyse_js_argument(&comment, &mut read, &list, 4);
    analyse_js_property(&property, &mut read, &list, 4);
    assert_eq!(keys(&read), vec![".foo", "#top"]);
    assert_eq!(read.map.get("#top").unwrap().script_counter, 2);
}
