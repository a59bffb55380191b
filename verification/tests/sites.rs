use minify_selectors::html_attributes::{init, Designation};
use minify_selectors::markup::{
    analyse_html_attributes, rewrite_html_attributes, split_code_tag, unescape_html_chars,
};
use minify_selectors::named_char_refs::entity;
use minify_selectors::occurrences::{add_selector_to_map, get_encoded_selector, note_selector};
use minify_selectors::parse_selectors::{
    analyse_anchor_links, analyse_prefixed_selectors, analyse_string_of_arguments,
    analyse_string_of_tokens, get_function_arguments, is_prefixed_selector,
    rewrite_anchor_links, rewrite_prefixed_selectors, rewrite_string_of_arguments,
    rewrite_string_of_tokens,
};
use minify_selectors::registry::{Config, SelectorUsage, Selectors};
use minify_selectors::scan::{find_all, splice};
use minify_selectors::script::{
    analyse_js_arguments, analyse_js_properties, classify_call, rewrite_js_arguments,
    rewrite_js_properties, unescape_js_chars, Call,
};
use minify_selectors::style::{
    analyse_css, analyse_css_attributes, analyse_css_functions, analyse_css_selectors,
    rewrite_css, rewrite_css_attributes, rewrite_css_functions, rewrite_css_selectors,
    unescape_css_chars,
};

fn registry(names: &[(&str, &str)]) -> Selectors {
    let mut selectors = Selectors::new();
    for (key, replacement) in names {
        selectors.add(key.to_string(), Some(SelectorUsage::Style));
        selectors
            .map
            .get_mut(*key)
            .unwrap()
            .set_replacement(replacement.to_string());
    }
    selectors
}

fn keys(selectors: &Selectors) -> Vec<String> {
    selectors.map.keys().cloned().collect()
}

#[test]
fn find_all_reports_character_positions() {
    let found = find_all("b+", "a\u{e9}bbc\u{1f600}b");
    assert_eq!(found.len(), 2);
    assert_eq!((found[0].start, found[0].end), (2, 4));
    assert_eq!(found[0].groups, vec![Some("bb".to_string())]);
    assert_eq!((found[1].start, found[1].end), (6, 7));
}

#[test]
fn find_all_reports_groups_that_took_no_part() {
    let found = find_all("(?<x>a)|(?<y>b)", "ab");
    assert_eq!(found.len(), 2);
    assert_eq!(found[0].groups, vec![Some("a".to_string()), Some("a".to_string()), None]);
    assert_eq!(found[1].groups, vec![Some("b".to_string()), None, Some("b".to_string())]);
    assert_eq!(found[1].at(2), Some(&"b".to_string()));
    assert_eq!(found[1].at(1), None);
    assert_eq!(found[1].at(7), None);
}

#[test]
fn find_all_passes_over_an_empty_match_behind_a_match() {
    let found = find_all("a*", "baaa");
    let spans: Vec<(usize, usize)> = found.iter().map(|c| (c.start, c.end)).collect();
    assert_eq!(spans, vec![(0, 0), (1, 4)]);
}

#[test]
fn find_all_finds_nothing_for_a_broken_pattern() {
    assert_eq!(find_all("(", "((((").len(), 0);
    assert_eq!(find_all("x", "").len(), 0);
}

#[test]
fn splice_puts_the_text_together_again() {
    let text = "one two three";
    let found = find_all("t\\w+", text);
    let written = vec!["2".to_string(), "3".to_string()];
    assert_eq!(splice(text, &found, &written), "one 2 3");
    let same: Vec<String> = found.iter().map(|c| c.groups[0].clone().unwrap()).collect();
    assert_eq!(splice(text, &found, &same), text);
}

#[test]
fn css_escapes() {
    assert_eq!(unescape_css_chars("foo"), "foo");
    assert_eq!(unescape_css_chars("a\\26 b"), "a&b");
    assert_eq!(unescape_css_chars("a\\26b"), "a\u{26b}");
    assert_eq!(unescape_css_chars("sm\\:flex"), "sm:flex");
    assert_eq!(unescape_css_chars("\\1F600 x"), "\u{1f600}x");
    assert_eq!(unescape_css_chars("x\\d800 y"), "x\\d800 y");
    assert_eq!(unescape_css_chars("x\\110000 y"), "x\\110000 y");
}

#[test]
fn js_escapes() {
    assert_eq!(unescape_js_chars("plain"), "plain");
    assert_eq!(unescape_js_chars("%41\\x42\\u0043\\u{44}"), "ABCD");
    assert_eq!(unescape_js_chars("#a%20b"), "#a b");
    assert_eq!(unescape_js_chars("\\u{1F600}"), "\u{1f600}");
    assert_eq!(unescape_js_chars("\\ud800"), "\\ud800");
    assert_eq!(unescape_js_chars("\\u{110000}"), "\\u{110000}");
    assert_eq!(unescape_js_chars("\\u{FFFFFFFFFFFF}"), "\\u{FFFFFFFFFFFF}");
}

#[test]
fn html_escapes() {
    assert_eq!(unescape_html_chars("plain"), "plain");
    assert_eq!(unescape_html_chars("&#x41;&#66;"), "AB");
    assert_eq!(unescape_html_chars("a&amp;b"), "a&b");
    assert_eq!(unescape_html_chars("a&amp b"), "a& b");
    assert_eq!(unescape_html_chars("&eacute;&Sigma;&sigmaf;&omega;&euro;"), "\u{e9}\u{3a3}\u{3c2}\u{3c9}\u{20ac}");
    assert_eq!(unescape_html_chars("&bogus;"), "\\26bogus\\3B");
    assert_eq!(unescape_html_chars("a & b"), "a \\26 b");
    assert_eq!(unescape_html_chars("&#xD800;"), "&#xD800;");
    assert_eq!(unescape_html_chars("&#55296;"), "&#55296;");
}

#[test]
fn named_references() {
    assert_eq!(entity("&amp;"), Some("&".to_string()));
    assert_eq!(entity("&amp"), Some("&".to_string()));
    assert_eq!(entity("&nbsp;"), Some("\u{a0}".to_string()));
    assert_eq!(entity("&yuml"), Some("\u{ff}".to_string()));
    assert_eq!(entity("&apos;"), Some("'".to_string()));
    assert_eq!(entity("&apos"), None);
    assert_eq!(entity("&Rho;"), Some("\u{3a1}".to_string()));
    assert_eq!(entity("&Omega;"), Some("\u{3a9}".to_string()));
    assert_eq!(entity("&alpha;"), Some("\u{3b1}".to_string()));
    assert_eq!(entity("&alpha"), None);
    assert_eq!(entity("&harr;"), Some("\u{2194}".to_string()));
    assert_eq!(entity("&nothing;"), None);
    assert_eq!(entity(""), None);
    assert_eq!(entity("&"), None);
}

#[test]
fn marked_names() {
    assert!(is_prefixed_selector("__class--foo"));
    assert!(is_prefixed_selector("x #__ignore--foo y"));
    assert!(is_prefixed_selector(".__--foo"));
    assert!(!is_prefixed_selector("foo"));
    assert!(!is_prefixed_selector("__class-foo"));
}

#[test]
fn marked_names_are_read() {
    let mut selectors = Selectors::new();
    analyse_prefixed_selectors(
        "__class--one __id--two #__--three .__--four __ignore--five __--six",
        &mut selectors,
    );
    assert_eq!(keys(&selectors), vec![".one", "#two", "#three", ".four"]);
    assert_eq!(selectors.map.get(".one").unwrap().prefix_counter, 1);
    assert_eq!(selectors.map.get(".one").unwrap().counter, 1);
}

#[test]
fn marked_names_are_rewritten() {
    let selectors = registry(&[(".one", "a"), ("#two", "b")]);
    let mut text =
        "__class--one __id--two #__--two .__--one .__ignore--one __ignore--x __class--none"
            .to_string();
    rewrite_prefixed_selectors(&mut text, &selectors);
    assert_eq!(text, "a b #b .a .one x none");
}

#[test]
fn lists_of_names_are_read() {
    let mut selectors = Selectors::new();
    let mut list = "\"foo  bar __class--baz\"".to_string();
    analyse_string_of_tokens(&mut list, &mut selectors, "class", Some(SelectorUsage::MarkupClass));
    assert_eq!(list, "foo  bar __class--baz");
    assert_eq!(keys(&selectors), vec![".foo", ".bar"]);
    assert_eq!(selectors.map.get(".foo").unwrap().markup_class_counter, 1);
    let mut ids = "one".to_string();
    analyse_string_of_tokens(&mut ids, &mut selectors, "id", Some(SelectorUsage::MarkupId));
    assert_eq!(keys(&selectors), vec![".foo", ".bar", "#one"]);
    let mut other = "two".to_string();
    analyse_string_of_tokens(&mut other, &mut selectors, "other", None);
    assert_eq!(selectors.map.len(), 3);
}

#[test]
fn lists_of_names_are_rewritten() {
    let selectors = registry(&[(".foo", "a"), (".bar", "b"), ("#foo", "z")]);
    let mut list = "'foo none  bar'".to_string();
    rewrite_string_of_tokens(&mut list, &selectors, "class");
    assert_eq!(list, "'a none  b'");
    let mut ids = "foo".to_string();
    rewrite_string_of_tokens(&mut ids, &selectors, "id");
    assert_eq!(ids, "z");
    let mut marked = "foo __class--foo".to_string();
    rewrite_string_of_tokens(&mut marked, &selectors, "class");
    assert_eq!(marked, "a __class--foo");
}

#[test]
fn arguments_are_split() {
    let arguments = get_function_arguments("\"a\", b.c(d), {e: 1}, [f]");
    let whole: Vec<String> = arguments.iter().map(|c| c.groups[0].clone().unwrap()).collect();
    assert_eq!(whole, vec!["\"a\"", "b.c(d)", "{e: 1}", "[f]"]);
    assert_eq!(arguments[0].at(3), Some(&"a".to_string()));
    assert_eq!(arguments[0].at(2), Some(&"\"".to_string()));
    assert_eq!(arguments[1].at(3), None);
}

#[test]
fn arguments_are_read_and_rewritten() {
    let mut selectors = Selectors::new();
    analyse_string_of_arguments("\"foo\", bar, 'baz'", &mut selectors, "class", Some(SelectorUsage::Script));
    assert_eq!(keys(&selectors), vec![".foo", ".baz"]);
    assert_eq!(selectors.map.get(".foo").unwrap().script_counter, 1);
    let named = registry(&[(".foo", "a"), (".baz", "b")]);
    let mut arguments = "\"foo\", bar, 'baz', `none`".to_string();
    rewrite_string_of_arguments(&mut arguments, &named, "class");
    assert_eq!(arguments, "\"a\", bar, 'b', `none`");
}

#[test]
fn links_are_read() {
    let mut selectors = Selectors::new();
    let mut link = "\"page.html#top\"".to_string();
    analyse_anchor_links(&mut link, &mut selectors);
    assert_eq!(link, "page.html#top");
    let mut bare = "#a%20b".to_string();
    analyse_anchor_links(&mut bare, &mut selectors);
    let mut far = "https://example.org/#far".to_string();
    analyse_anchor_links(&mut far, &mut selectors);
    let mut relative = "//example.org/#far".to_string();
    analyse_anchor_links(&mut relative, &mut selectors);
    let mut none = "page.html".to_string();
    analyse_anchor_links(&mut none, &mut selectors);
    let mut quote = "'".to_string();
    analyse_anchor_links(&mut quote, &mut selectors);
    assert_eq!(keys(&selectors), vec!["#top", "#a b"]);
    assert_eq!(selectors.map.get("#top").unwrap().anchor_counter, 1);
}

#[test]
fn links_are_rewritten() {
    let selectors = registry(&[("#top", "a")]);
    let mut link = "\"page.html#top\"".to_string();
    rewrite_anchor_links(&mut link, &selectors);
    assert_eq!(link, "\"page.html#a\"");
    let mut far = "http://example.org/#top".to_string();
    rewrite_anchor_links(&mut far, &selectors);
    assert_eq!(far, "http://example.org/#top");
    let mut unknown = "#bottom".to_string();
    rewrite_anchor_links(&mut unknown, &selectors);
    assert_eq!(unknown, "#bottom");
    let mut bare = "#top".to_string();
    rewrite_anchor_links(&mut bare, &selectors);
    assert_eq!(bare, "#a");
}

#[test]
fn lookups_in_the_registry() {
    let mut selectors = registry(&[(".foo", "a")]);
    selectors.add(".kept".to_string(), Some(SelectorUsage::MarkupClass));
    assert_eq!(get_encoded_selector(".foo", &selectors), Some("a".to_string()));
    assert_eq!(get_encoded_selector(".kept", &selectors), None);
    assert_eq!(get_encoded_selector(".none", &selectors), None);
    add_selector_to_map("#new", &mut selectors, Some(SelectorUsage::Anchor));
    note_selector("bare", &mut selectors, Some(SelectorUsage::Anchor));
    note_selector("", &mut selectors, Some(SelectorUsage::Anchor));
    note_selector(".noted", &mut selectors, None);
    assert_eq!(keys(&selectors), vec![".foo", ".kept", "#new", ".noted"]);
}

#[test]
fn whitelist_lookups() {
    let list = init(&vec![
        ("data-id".to_string(), "id".to_string()),
        ("style".to_string(), "nothing".to_string()),
    ]);
    let name = |text: &str| -> Vec<char> { text.chars().collect() };
    assert_eq!(list.lookup(&name("class")), Some(Designation::Class));
    assert_eq!(list.lookup(&name("aria-labelledby")), Some(Designation::Id));
    assert_eq!(list.lookup(&name("xlink:href")), Some(Designation::Anchor));
    assert_eq!(list.lookup(&name("fill")), Some(Designation::Style));
    assert_eq!(list.lookup(&name("onclick")), Some(Designation::Script));
    assert_eq!(list.lookup(&name("onwheel")), Some(Designation::Script));
    assert_eq!(list.lookup(&name("data-id")), Some(Designation::Id));
    assert_eq!(list.lookup(&name("style")), Some(Designation::Unknown));
    assert_eq!(list.lookup(&name("title")), None);
    assert_eq!(list.entries.len(), 116);
}

#[test]
fn css_parts() {
    let list = init(&vec![("data-target".to_string(), "selector".to_string())]);
    let mut selectors = Selectors::new();
    analyse_css_selectors(".a\\:b #c { color: .d } [x=\".e\"] /* .f */", &mut selectors);
    assert_eq!(keys(&selectors), vec![".a:b", "#c"]);
    let mut selectors = Selectors::new();
    analyse_css_attributes("[class~=foo][href=\"#top\"][data-target=\".bar\"][id=x i]", &mut selectors, &list, 4);
    assert_eq!(keys(&selectors), vec![".foo", "#top", ".bar"]);
    assert_eq!(selectors.map.get(".foo").unwrap().style_counter, 1);
    assert_eq!(selectors.map.get("#top").unwrap().anchor_counter, 1);
    let mut selectors = Selectors::new();
    analyse_css_attributes("[data-target=\".bar\"]", &mut selectors, &list, 0);
    assert_eq!(selectors.map.len(), 0);
    let mut selectors = Selectors::new();
    analyse_css_functions("a { fill: url(#one) url('x.svg#two') url(https://x.org/#three) }", &mut selectors);
    assert_eq!(keys(&selectors), vec!["#one", "#two"]);
    let mut selectors = Selectors::new();
    analyse_css("@import url(\"x.css#no\"); @import \"y.css\"; .one { } [id=two] { } .three { mask: url(#four) } .__class--five", &mut selectors, &list, 4);
    // The file name in the import is no class; the fragment of its link is an id.
    assert_eq!(keys(&selectors), vec![".one", ".three", "#two", "#no", "#four", ".five"]);
}

#[test]
fn css_parts_rewritten() {
    let list = init(&vec![("data-target".to_string(), "selector".to_string())]);
    let selectors = registry(&[(".foo", "a"), ("#top", "b"), (".bar", "c")]);
    let mut text = ".foo.bar > .none #top { color: red }".to_string();
    rewrite_css_selectors(&mut text, &selectors);
    assert_eq!(text, ".a.c > .none #b { color: red }");
    let mut text = "[class~=foo][href=\"#top\"][data-target=\".bar\"][class=foo I]".to_string();
    rewrite_css_attributes(&mut text, &selectors, &list, 4);
    assert_eq!(text, "[class~=a][href=\"#b\"][data-target=\".c\"][class=foo I]");
    let mut text = "[data-target=\".bar\"]".to_string();
    rewrite_css_attributes(&mut text, &selectors, &list, 0);
    assert_eq!(text, "[data-target=\".bar\"]");
    let mut text = "a { fill: url(#top) }".to_string();
    rewrite_css_functions(&mut text, &selectors);
    assert_eq!(text, "a { fill: url(#b) }");
    let mut text = ".foo[id=top] { mask: url(#top) } .__ignore--foo".to_string();
    rewrite_css(&mut text, &selectors, &list, 4);
    assert_eq!(text, ".a[id=b] { mask: url(#b) } .foo");
}

#[test]
fn code_tags() {
    assert_eq!(
        split_code_tag("<code class=\"x\">y > z</code>"),
        Some((" class=\"x\"".to_string(), "y > z</code>".to_string()))
    );
    assert_eq!(split_code_tag("<code"), None);
    assert_eq!(split_code_tag("<pre>"), None);
}

#[test]
fn html_attributes_with_a_given_usage() {
    let list = init(&vec![]);
    let mut selectors = Selectors::new();
    analyse_html_attributes(
        "<p class=\"one\" id=one style=\"fill: url(#two)\" onclick=\"x.classList.add('three')\" title=\"four\">",
        &mut selectors,
        &list,
        Some(SelectorUsage::Script),
        4,
    );
    assert_eq!(keys(&selectors), vec![".one", "#one", "#two", ".three"]);
    assert_eq!(selectors.map.get(".one").unwrap().script_counter, 1);
    assert_eq!(selectors.map.get(".one").unwrap().markup_class_counter, 0);
    let mut selectors = Selectors::new();
    analyse_html_attributes("<p onclick=\"x.classList.add('three')\">", &mut selectors, &list, None, 0);
    assert_eq!(selectors.map.len(), 0);
}

#[test]
fn html_attributes_rewritten() {
    let list = init(&vec![]);
    let selectors = registry(&[(".one", "a"), ("#one", "b"), (".caf\u{e9}", "c")]);
    let mut text = "<p class=one id='one' for=\"none\" class=\"caf&eacute;\">".to_string();
    rewrite_html_attributes(&mut text, &selectors, &list, 4);
    assert_eq!(text, "<p class=a id='b' for=\"none\" class=\"c\">");
}

#[test]
fn calls_are_classified() {
    assert_eq!(classify_call(".querySelector"), Call::Selector);
    assert_eq!(classify_call(".matches"), Call::Selector);
    assert_eq!(classify_call(".getElementsByClassName"), Call::ClassNames);
    assert_eq!(classify_call(".getElementById"), Call::Id);
    assert_eq!(classify_call(".setAttribute"), Call::SetAttribute);
    assert_eq!(classify_call(".insertAdjacentHTML"), Call::InsertHtml);
    assert_eq!(classify_call("window.open"), Call::FirstLink);
    assert_eq!(classify_call("history.pushState"), Call::ThirdLink);
    assert_eq!(classify_call(".classList.toggle"), Call::ClassArguments);
    assert_eq!(classify_call(".forEach"), Call::Other);
}

#[test]
fn js_calls() {
    let list = init(&vec![]);
    let mut selectors = Selectors::new();
    analyse_js_arguments(
        "a.closest(\"#one .two\"); b.getElementsByClassName('three four'); c.getElementById(\"five\"); \
         d.setAttribute('for', 'six'); e.insertAdjacentHTML('beforeend', '<i class=\"seven\"></i>'); \
         window.open('page.html#eight'); history.pushState({}, '', \"#nine\"); \
         f.classList .add('ten'); g.matches(variable); /* h.closest('.no') */",
        &mut selectors,
        &list,
        4,
    );
    assert_eq!(
        keys(&selectors),
        vec!["#one", ".two", ".three", ".four", "#five", "#six", ".seven", "#eight", "#nine", ".ten"]
    );
    assert_eq!(selectors.map.get(".two").unwrap().style_counter, 1);
    assert_eq!(selectors.map.get(".three").unwrap().script_counter, 1);
    assert_eq!(selectors.map.get(".seven").unwrap().script_counter, 1);
    assert_eq!(selectors.map.get("#eight").unwrap().anchor_counter, 1);
}

#[test]
fn js_calls_rewritten() {
    let list = init(&vec![]);
    let selectors = registry(&[("#one", "a"), (".two", "b"), (".ten", "c")]);
    let mut text = "a.closest(\"#one .two\"); d.setAttribute('id', 'one'); window.open('page.html#one'); \
                    history.replaceState(null, '', '#one'); f.classList.remove('ten', \"two\"); g.other('two');"
        .to_string();
    rewrite_js_arguments(&mut text, &selectors, &list, 4);
    assert_eq!(
        text,
        "a.closest(\"#a .b\"); d.setAttribute('id', 'a'); window.open('page.html#a'); \
         history.replaceState(null, '', '#a'); f.classList.remove('c', \"b\"); g.other('two');"
    );
    let mut nested = "a.closest(\"#one\");".to_string();
    rewrite_js_arguments(&mut nested, &selectors, &list, 0);
    assert_eq!(nested, "a.closest(\"#one\");");
}

#[test]
fn js_uses_of_properties() {
    let list = init(&vec![]);
    let mut selectors = Selectors::new();
    analyse_js_properties(
        "a.className = 'one two'; b.id = \"three\"; window.location.href = 'x.html#four'; \
         c.outerHTML = `<i id=\"five\"></i>`; d.classList.value = 'six'; // e.id = 'no'",
        &mut selectors,
        &list,
        4,
    );
    assert_eq!(keys(&selectors), vec![".one", ".two", "#three", "#four", "#five", ".six"]);
    let named = registry(&[(".one", "a"), ("#three", "b")]);
    let mut text = "a.className += 'one two'; b.id == \"three\";".to_string();
    rewrite_js_properties(&mut text, &named, &list, 4);
    assert_eq!(text, "a.className += 'a two'; b.id == \"b\";");
}

#[test]
fn settings_are_independent_of_the_registry() {
    let config = Config::default();
    assert_eq!(config.input, "");
    assert_eq!(config.output, "");
}
