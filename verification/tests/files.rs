use minify_selectors::files::{
    read_from_css, read_from_html, read_from_js, write_to_css, write_to_html, write_to_js,
};
use minify_selectors::registry::{Config, SelectorUsage, Selectors};

fn settings() -> Config {
    let mut config = Config::default();
    config.sort = false;
    config
}

fn read(kind: &str, text: &str, selectors: &mut Selectors, config: &Config) {
    match kind {
        "css" => read_from_css(text, selectors, config),
        "html" => read_from_html(text, selectors, config),
        "js" => read_from_js(text, selectors, config),
        _ => unreachable!(),
    }
}

fn write(kind: &str, text: &str, selectors: &Selectors, config: &Config) -> String {
    let mut out = text.to_string();
    match kind {
        "css" => write_to_css(&mut out, selectors, config),
        "html" => write_to_html(&mut out, selectors, config),
        "js" => write_to_js(&mut out, selectors, config),
        _ => unreachable!(),
    }
    out
}

/// Reads all files, hands out the names, and rewrites the last file.
fn run(files: &[(&str, &str)]) -> String {
    let mut config = settings();
    let mut selectors = Selectors::new();
    for (kind, text) in files {
        read(kind, text, &mut selectors, &config);
    }
    selectors.process(&mut config);
    let (kind, text) = files[files.len() - 1];
    write(kind, text, &selectors, &config)
}

#[test]
fn css_classes_and_ids_count_apart() {
    assert_eq!(run(&[("css", ".foo { } .bar, #baz { }")]), ".a { } .b, #a { }");
}

#[test]
fn css_reads_selectors_in_order() {
    let config = settings();
    let mut selectors = Selectors::new();
    read_from_css(".foo { color: red } .bar, #baz { } .foo { }", &mut selectors, &config);
    let keys: Vec<&String> = selectors.map.keys().collect();
    assert_eq!(keys, vec![".foo", ".bar", "#baz"]);
    assert_eq!(selectors.map.get(".foo").unwrap().counter, 2);
    assert_eq!(selectors.map.get(".foo").unwrap().style_counter, 2);
    assert_eq!(selectors.map.get("#baz").unwrap().style_counter, 1);
}

#[test]
fn css_leaves_bodies_and_comments_alone() {
    assert_eq!(
        run(&[("css", "/* .note */ .foo { color: #fff; margin: .5em } .bar { }")]),
        "/* .note */ .a { color: #fff; margin: .5em } .b { }"
    );
}

#[test]
fn css_rewrites_attribute_selectors() {
    assert_eq!(
        run(&[("css", ".foo { } #bar { } [class=\"foo\"] { } [id=bar] { } [class=\"foo\" i] { }")]),
        ".a { } #a { } [class=\"a\"] { } [id=a] { } [class=\"foo\" i] { }"
    );
}

#[test]
fn css_rewrites_url_fragments() {
    assert_eq!(
        run(&[("css", "#shape { } .x { fill: url(#shape); } .y { fill: url(\"sprite.svg#shape\") }")]),
        "#a { } .a { fill: url(#a); } .b { fill: url(\"sprite.svg#a\") }"
    );
}

#[test]
fn html_attributes_and_links() {
    let css = ".foo { } .bar { } #baz { }";
    let html = "<div class=\"foo bar\" id=\"baz\"><a href=\"#baz\">x</a></div>";
    assert_eq!(
        run(&[("css", css), ("html", html)]),
        "<div class=\"a b\" id=\"a\"><a href=\"#a\">x</a></div>"
    );
}

#[test]
fn html_leaves_links_to_other_hosts() {
    let html = "<p id=\"top\"><a href=\"https://example.org/#top\">x</a><a href=\"//example.org/#top\">y</a></p>";
    assert_eq!(
        run(&[("html", html)]),
        "<p id=\"a\"><a href=\"https://example.org/#top\">x</a><a href=\"//example.org/#top\">y</a></p>"
    );
}

#[test]
fn html_style_and_script_elements() {
    let html = "<body><style>.foo { }</style><p class=\"foo\" id=\"p\"></p><script>document.getElementById('p');</script></body>";
    assert_eq!(
        run(&[("html", html)]),
        "<body><style>.a { }</style><p class=\"a\" id=\"a\"></p><script>document.getElementById('a');</script></body>"
    );
}

#[test]
fn html_code_body_is_literal() {
    let css = ".foo { }";
    let html = "<code class=\"foo\"><i class=\"foo\"></i></code><i class=\"foo\"></i>";
    assert_eq!(
        run(&[("css", css), ("html", html)]),
        "<code class=\"a\"><i class=\"foo\"></i></code><i class=\"a\"></i>"
    );
}

#[test]
fn html_comments_are_skipped() {
    let css = ".foo { }";
    let html = "<!-- <i class=\"foo\"></i> --><i class=\"foo\"></i>";
    assert_eq!(
        run(&[("css", css), ("html", html)]),
        "<!-- <i class=\"foo\"></i> --><i class=\"a\"></i>"
    );
}

#[test]
fn html_attribute_names_ignore_case() {
    let css = ".foo { }";
    let html = "<i CLASS=\"foo\"></i>";
    assert_eq!(run(&[("css", css), ("html", html)]), "<i CLASS=\"a\"></i>");
}

#[test]
fn js_selector_strings_and_class_lists() {
    let css = ".foo { } .bar { }";
    let js = "el.querySelector('.foo.bar'); el.classList.add(\"foo\",\"bar\");";
    assert_eq!(
        run(&[("css", css), ("js", js)]),
        "el.querySelector('.a.b'); el.classList.add(\"a\",\"b\");"
    );
}

#[test]
fn js_properties() {
    let css = ".foo { } #bar { }";
    let js = "el.className = \"foo\"; el.id = 'bar'; window.location.hash = \"#bar\";";
    assert_eq!(
        run(&[("css", css), ("js", js)]),
        "el.className = \"a\"; el.id = 'a'; window.location.hash = \"#a\";"
    );
}

#[test]
fn js_comments_are_skipped() {
    let css = ".foo { }";
    let js = "// el.querySelector('.foo')\nel.querySelector('.foo');";
    assert_eq!(
        run(&[("css", css), ("js", js)]),
        "// el.querySelector('.foo')\nel.querySelector('.a');"
    );
}

#[test]
fn js_set_attribute_and_inner_html() {
    let css = ".foo { } #bar { }";
    let js = "el.setAttribute(\"class\", \"foo\"); el.innerHTML = '<i id=\"bar\"></i>';";
    assert_eq!(
        run(&[("css", css), ("js", js)]),
        "el.setAttribute(\"class\", \"a\"); el.innerHTML = '<i id=\"a\"></i>';"
    );
}

#[test]
fn markup_only_class_is_kept() {
    let css = ".styled { }";
    let html = "<p class=\"only-in-markup styled\"></p>";
    let mut config = settings();
    let mut selectors = Selectors::new();
    read_from_css(css, &mut selectors, &config);
    read_from_html(html, &mut selectors, &config);
    selectors.process(&mut config);
    assert_eq!(
        write("html", html, &selectors, &config),
        "<p class=\"only-in-markup a\"></p>"
    );
    assert_eq!(selectors.map.get(".only-in-markup").unwrap().replacement, None);
    for record in selectors.map.values() {
        assert!(record.replacement != Some("only-in-markup".to_string()));
    }
}

#[test]
fn ignored_name_is_written_without_its_marker() {
    let html = "<div class=\"__ignore--keepme\">";
    assert_eq!(run(&[("html", html)]), "<div class=\"keepme\">");
    let css = ".keepme { }";
    assert_eq!(run(&[("css", css), ("html", html)]), "<div class=\"keepme\">");
}

#[test]
fn marked_names_are_encoded() {
    let css = ".foo { } #bar { }";
    let js = "var a = \"__class--foo\"; var b = \"__id--bar\"; var c = \"#__--bar\";";
    assert_eq!(
        run(&[("css", css), ("js", js)]),
        "var a = \"a\"; var b = \"a\"; var c = \"#a\";"
    );
}

#[test]
fn marked_names_are_read_as_prefix_uses() {
    let config = settings();
    let mut selectors = Selectors::new();
    read_from_js("var a = \"__class--foo\"; var b = \"__ignore--bar\";", &mut selectors, &config);
    let keys: Vec<&String> = selectors.map.keys().collect();
    assert_eq!(keys, vec![".foo"]);
    assert_eq!(selectors.map.get(".foo").unwrap().prefix_counter, 1);
}

#[test]
fn same_name_across_files() {
    let css = ".foo { }";
    let html = "<i class=\"foo\"></i>";
    let js = "el.classList.add('foo');";
    let mut config = settings();
    let mut selectors = Selectors::new();
    read_from_css(css, &mut selectors, &config);
    read_from_html(html, &mut selectors, &config);
    read_from_js(js, &mut selectors, &config);
    selectors.process(&mut config);
    assert_eq!(write("css", css, &selectors, &config), ".a { }");
    assert_eq!(write("html", html, &selectors, &config), "<i class=\"a\"></i>");
    assert_eq!(write("js", js, &selectors, &config), "el.classList.add('a');");
    let foo = selectors.map.get(".foo").unwrap();
    assert_eq!(foo.counter, 3);
    assert_eq!(foo.style_counter, 1);
    assert_eq!(foo.markup_class_counter, 1);
    assert_eq!(foo.script_counter, 1);
}

#[test]
fn rewriting_twice_changes_nothing_more() {
    let files = [
        ("css", ".foo { } .bar, #baz { } [class=\"foo\"] { fill: url(#baz) }"),
        ("html", "<div class=\"foo bar\" id=\"baz\"><a href=\"#baz\">x</a></div>"),
        ("js", "el.querySelector('.foo.bar'); el.classList.add(\"foo\",\"bar\");"),
    ];
    let mut config = settings();
    let mut selectors = Selectors::new();
    for (kind, text) in files {
        read(kind, text, &mut selectors, &config);
    }
    selectors.process(&mut config);
    for (kind, text) in files {
        let once = write(kind, text, &selectors, &config);
        assert!(once != text);
        let twice = write(kind, &once, &selectors, &config);
        assert_eq!(twice, once);
    }
    // Names that are not in the registry stay as they are.
    let other = ".x { } .y, #z { }";
    assert_eq!(write("css", other, &selectors, &config), other);
}

#[test]
fn text_without_selectors_stays_as_it_is() {
    let config = settings();
    let selectors = Selectors::new();
    let css = "body { margin: 0 }\nh1 > p { color: red }\n";
    assert_eq!(write("css", css, &selectors, &config), css);
    let html = "<p>plain text, no attributes</p>";
    assert_eq!(write("html", html, &selectors, &config), html);
    let js = "let total = 1 + 2;\nconsole.log(total);\n";
    assert_eq!(write("js", js, &selectors, &config), js);
}

#[test]
fn frequency_sort_gives_short_names_to_the_most_used() {
    let mut config = Config::default();
    let mut selectors = Selectors::new();
    read_from_css(".rare { } .often { } .often { } .often { }", &mut selectors, &config);
    selectors.sort_by_frequency();
    selectors.process(&mut config);
    assert_eq!(selectors.map.get(".often").unwrap().replacement, Some("a".to_string()));
    assert_eq!(selectors.map.get(".rare").unwrap().replacement, Some("b".to_string()));
}

#[test]
fn custom_attributes_extend_the_list() {
    let mut config = settings();
    config.custom_attributes = vec![("data-class".to_string(), "class".to_string())];
    let mut selectors = Selectors::new();
    let css = ".foo { }";
    let html = "<i data-class=\"foo\"></i>";
    read_from_css(css, &mut selectors, &config);
    read_from_html(html, &mut selectors, &config);
    selectors.process(&mut config);
    assert_eq!(write("html", html, &selectors, &config), "<i data-class=\"a\"></i>");
}

#[test]
fn reading_keeps_totals_equal_to_breakdowns() {
    let config = settings();
    let mut selectors = Selectors::new();
    read_from_html(
        "<style>.a { } #b { }</style><p class=\"a c\" id=\"b\"><a href=\"#b\"></a></p>",
        &mut selectors,
        &config,
    );
    selectors.add(".a".to_string(), Some(SelectorUsage::Script));
    for record in selectors.map.values() {
        let sum = record.markup_class_counter
            + record.markup_id_counter
            + record.selector_string_counter
            + record.anchor_counter
            + record.style_counter
            + record.script_counter
            + record.prefix_counter;
        assert_eq!(record.counter, sum);
    }
    assert_eq!(selectors.map.get("#b").unwrap().counter, 3);
}

#[test]
fn svg_attributes_and_links() {
    let css = ".shape { } #gradient { }";
    let svg = "<svg><defs><linearGradient id=\"gradient\"/></defs><rect class=\"shape\" fill=\"url(#gradient)\"/><use xlink:href=\"#gradient\"/></svg>";
    assert_eq!(
        run(&[("css", css), ("html", svg)]),
        "<svg><defs><linearGradient id=\"a\"/></defs><rect class=\"a\" fill=\"url(#a)\"/><use xlink:href=\"#a\"/></svg>"
    );
}

#[test]
fn rewritten_files_read_anew_are_rewritten_to_themselves() {
    let files = [
        ("css", ".foo { } .bar, #baz { } [class=\"foo\"] { fill: url(#baz) }"),
        ("html", "<div class=\"foo bar keep\" id=\"baz\"><a href=\"#baz\">x</a></div>"),
        ("js", "el.querySelector('.foo.bar'); el.classList.add(\"foo\",\"bar\");"),
    ];
    let mut config = settings();
    let mut selectors = Selectors::new();
    for (kind, text) in files {
        read(kind, text, &mut selectors, &config);
    }
    selectors.process(&mut config);
    let written: Vec<(&str, String)> = files
        .iter()
        .map(|(kind, text)| (*kind, write(kind, text, &selectors, &config)))
        .collect();
    assert_eq!(written[1].1, "<div class=\"a b keep\" id=\"a\"><a href=\"#a\">x</a></div>");

    let mut config = settings();
    let mut again = Selectors::new();
    for (kind, text) in &written {
        read(kind, text, &mut again, &config);
    }
    again.process(&mut config);
    for (kind, text) in &written {
        assert_eq!(&write(kind, text, &again, &config), text);
    }
}
