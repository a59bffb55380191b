//! The patterns by which the places of selectors are found.
//!
//! Each pattern is a regular expression in the syntax of Oniguruma, written
//! in its extended form, where white space in the pattern counts for
//! nothing. Only named groups are counted, in the order in which they open.

use vstd::prelude::*;

verus! {

/// A name marked for this crate: an optional sigil, `__`, an optional
/// context (`class`, `id` or `ignore`), `--` and the name. Groups: the sigil,
/// the context, the name.
pub const PREFIXED_SELECTORS: &'static str = r##"(?x)
            (?:
                (?<type>[\#\.]?)
                __
                (?<context>
                    (?:class | id | ignore)?
                )
                --
            )
            (?<name>
                -?
                (?>
                    [A-Za-z_]
                    | [^\0-\177]
                    | (?>
                        \\[0-9A-Fa-f]{1,6}(?>\r\n|[ \n\r\t\f])?
                        | \\[^\n\r\f0-9A-Fa-f]
                    )
                )
                (?>
                    (?!-->)
                    [\w\-]
                    | [^\0-\177]
                    | (?>
                        \\[0-9A-Fa-f]{1,6}(?>\r\n|[ \n\r\t\f])?
                        | \\[^\n\r\f0-9A-Fa-f]
                    )
                )*
            )
        "##;

/// A link with a fragment. Links to other hosts and links whose fragment is
/// a marked name match without groups; otherwise the groups are the part
/// before the fragment and the fragment with its `#`.
pub const INTERNAL_ANCHOR_TARGET_ID: &'static str = r##"(?x)
            ^(?>http:|https:)?\/{2}.*$
            | ^[^#]*[#]__(?:class | id | ignore)?--
            | ^(?<url>[^#]*)
            (?<target_id>\#[^#]*)$
        "##;

/// One name in a list of names separated by white space. Group: the name.
pub const STRING_DELIMITED_BY_SPACE: &'static str = r##"(?x)
            (?<token>
                -?
                (?>
                    [A-Za-z_]
                    | [^\0-\177]
                    | (?>
                        \\[0-9A-Fa-f]{1,6}(?>\r\n|[ \n\r\t\f])?
                        | \\[^\n\r\f0-9A-Fa-f]
                    )
                )
                (?>
                    [\w\-]
                    | [^\0-\177]
                    | (?>
                        \\[0-9A-Fa-f]{1,6}(?>\r\n|[ \n\r\t\f])?
                        | \\[^\n\r\f0-9A-Fa-f]
                    )
                )*
            )
        "##;

/// One argument of a call: a string, an expression, an object or an array.
/// Groups: the string with its quotes, the quote, the text between the
/// quotes, the expression, the object, the array.
pub const STRING_DELIMITED_BY_COMMA: &'static str = r##"(?x)
            (?<token>
                (?<token_delimiter>["'`])
                (?<token_string>
                    (?:
                        (?<=")
                        (?:[^"\\] | \\.)*
                    )
                    | (?:
                        (?<=')
                        (?:[^'\\] | \\.)*
                    )
                    | (?:
                        (?<=`)
                        (?:[^`\\] | \\.)*
                    )
                )
                ["'`]
            )
            | (?<expression>
                (?:
                    !*
                    (?:
                        (?:
                            \.?
                            [$\w]+
                        )
                        | (?:
                            \(
                            (?: [^()] | \k<expression>)*
                            \)
                        )
                    )+
                    (?:
                        \s*
                        (?:
                            &&
                            | \|\|
                            | \?{1,2}
                            | :
                            | ={1,3}
                            | !={1,2}
                            | >={0,2}
                            | <={0,2}
                            | ["'`]
                                (?:
                                    (?:(?<=")[^"]*)
                                    | (?:(?<=')[^']*)
                                    | (?:(?<=`)[^`]*)
                                )
                            ["'`]
                        )
                        \s*
                    )*
                )+
            )
            | (?<object>
                \{
                (?: [^{}] | \k<object> )*
                \}
            )
            | (?<array>
                \[
                (?: [^\[\]] | \k<array> )*
                \]
            )
        "##;

/// A style element. Groups: the opening tag, the styles, the closing tag.
pub const HTML_STYLE_ELEMENT: &'static str = r##"(?x)
            (?<tag_open>
                <style[^>]*>
            )
            (?<styles>
                (?:.|\n|\r)*?
            )
            (?<tag_close>
                <\/style>
            )
        "##;

/// A script element. Groups: the opening tag, the script, the closing tag.
pub const HTML_SCRIPT_ELEMENT: &'static str = r##"(?x)
            (?<tag_open>
                <script[^>]*>
            )
            (?<script>
                (?:.|\n|\r)*?
            )
            (?<tag_close>
                <\/script>
            )
        "##;

/// An attribute with a value. Comments and the head, style, code and script
/// elements match as a whole, without groups, so that nothing inside them
/// is taken for an attribute. Groups: the name, the equals sign with the
/// space around it, the opening quote, the value.
pub const HTML_ATTRIBUTES: &'static str = r##"(?x)
            <!--.*?-->
            | <head[>\s](?:.|\s)*?<\/head>
            | <style[>\s](?:.|\s)*?<\/style>
            | <code[>\s](?:.|\s)*?<\/code>
            | <script[>\s](?:.|\s)*?<\/script>
            | (?<attribute>
                [^\s\x00\/>"'=]+
            )
            (?<join>
                \s*=\s*
            )
            (?<quote>
                (?:\\?["'])?
            )
            (?<value>
                (?:
                    (?<=")
                    (?:[^"\\] | \\[^"'])+
                )
                | (?:
                    (?<=')
                    (?:[^'\\] | \\[^"'])+
                )
                | [^\s\\<>"'=]+
            )
        "##;

/// A character reference. Groups: a hexadecimal reference, a decimal
/// reference, a named reference.
pub const ESCAPED_HTML_CHARS: &'static str = r##"(?x)
            (?<hexdecimal_char_ref>
                &\#x[0-9A-Fa-f]{1,4};
            )
            | (?<decimal_char_ref>
                &\#[0-9]{1,6};
            )
            | (?<named_char_ref>
                &[A-Za-z]*+;?
            )
        "##;

/// A class or an id in a selector. Rule bodies, attribute selectors,
/// comments, imports and the markers of this crate match as a whole, without
/// groups. Groups: the sigil, the name.
pub const CSS_SELECTORS: &'static str = r##"(?x)
            {[^{}]*}
            | \[
                \s*
                    ["']?.*?["']?
                \s*
            \]
            | \/\*[^*]*\*+(?>[^\/*][^*]*\*+)*\/
            | @import\s++(?:
                url\([^)]*\)
                | (?:"(?:[^"])*")
                | (?:'(?:[^'])*')
            )
            | [\#\.]?__(?:class | id | ignore)?--
            | (?<type>[\#\.])
            (?<name>
                -?
                (?>
                    [A-Za-z_]
                    | [^\0-\177]
                    | (?>
                        \\[0-9A-Fa-f]{1,6}(?>\r\n|[ \n\r\t\f])?
                        | \\[^\n\r\f0-9A-Fa-f]
                    )
                )
                (?>
                    [\w\-]
                    | [^\0-\177]
                    | (?>
                        \\[0-9A-Fa-f]{1,6}(?>\r\n|[ \n\r\t\f])?
                        | \\[^\n\r\f0-9A-Fa-f]
                    )
                )*
            )
        "##;

/// An attribute selector that compares a value. Comments match without
/// groups. Groups: the attribute, the operator, the opening quote, the
/// value, the space before the flag, the flag.
pub const CSS_ATTRIBUTES: &'static str = r##"(?x)
            \/\*[^*]*\*+(?>[^\/*][^*]*\*+)*\/
            | \[\s*+
            (?<attribute>
                (?>
                    [^\f\n\t\ \\>"'|:^$*~=]
                    | (?>
                        \\[0-9A-Fa-f]{1,6}(?>\r\n|[ \n\r\t\f])?
                        | \\[^\n\r\f0-9A-Fa-f]
                    )
                )++
            )
            \s*+
            (?<operator>
                [~]?=
            )
            \s*+
            (?<quote>
                (?:\\?["'])?
            )
            (?<value>
                (?:
                    (?<=["'])
                    (?:
                        [^"'\\]
                        | (?>
                            \\[0-9A-Fa-f]{1,6}(?>\r\n|[ \n\r\t\f])?
                            | \\[^\n\r\f0-9A-Fa-f"']
                        )
                    )*
                )
                | (?:
                    -?
                    (?>
                        [A-Za-z_]
                        | [^\0-\177]
                        | (?>
                            \\[0-9A-Fa-f]{1,6}(?>\r\n|[ \n\r\t\f])?
                            | \\[^\n\r\f0-9A-Fa-f]
                        )
                    )
                    (?>
                        [\w\-]
                        | [^\0-\177]
                        | (?>
                            \\[0-9A-Fa-f]{1,6}(?>\r\n|[ \n\r\t\f])?
                            | \\[^\n\r\f0-9A-Fa-f]
                        )
                    )*
                )
            )
            (?>\\?["'])?
            (?<spacer>\s*+)
            (?<flag>[IiSs]?)
            \s*+\]
        "##;

/// A `url` function. Groups: the function's name, the bracket with the space
/// behind it, the opening quote, the argument.
pub const CSS_FUNCTIONS: &'static str = r##"(?x)
            (?<function>
                url
            )
            (?<join>
                \(\s*+
            )
            (?<quote>
                (?:\\?["'])?
            )
            (?<argument>
                (?:
                    (?<=")(?:[^"])*
                )
                | (?:
                    (?<=')(?:[^'])*
                )
                | (?:
                    [^\s\)]*
                )
            )
        "##;

/// An escape in a style sheet. Groups: a code point in hexadecimal, an
/// escaped character.
pub const ESCAPED_CSS_CHARS: &'static str = r##"(?x)
            (?<unicode>
                \\[0-9A-Fa-f]{1,6}(?>\r\n|[ \n\r\t\f])?
            )
            | (?<character>
                \\[^\n\r\f0-9A-Fa-f]
            )
        "##;

/// A call of one of the functions that take classes, ids, selectors, markup
/// or links. Comments match without groups. Groups: the function, the
/// bracket with the space behind it, the arguments, the quote of the last
/// string among the arguments.
pub const JS_ARGUMENTS: &'static str = r##"(?x)
            \/\*[^*]*\*+(?>[^\/*][^*]*\*+)*\/
            | \/\/[^\n\r]*
            | (?<function>
                \.insertAdjacentHTML
                | \.querySelectorAll
                | \.querySelector
                | \.closest
                | \.matches
                | \.getElementById
                | \.getElementsByClassName
                | \.classList\s*+\.(?> add | remove | contains | replace | toggle )
                | \.setAttribute
                | history\s*+\.(?> pushState | replaceState )
                | window\s*+\.(?> location\s*+\.assign | location\s*+\.replace | open )
            )
            (?<join>
                \(\s*+
            )
            (?<arguments>
                (?:
                    \s*
                    (?:
                        (?:
                            (?<quote>[`"'])
                            (?:
                                (?:
                                    (?<=`)
                                    (?:[^`\\] | \\.)*
                                    `
                                )
                                | (?:
                                    (?<=")
                                    (?:[^"\\] | \\.)*
                                    "
                                )
                                | (?:
                                    (?<=')
                                    (?:[^'\\] | \\.)*
                                    '
                                )
                            )
                        )
                        | (?:
                            !*
                            (?:
                                \.?[$\w]+
                            )+
                        )
                        | (?:
                            \(
                            (?: [^()] | \k<arguments>)*
                            \)
                        )
                        | (?:
                            \{
                            (?: [^{}] | \k<arguments> )*
                            \}
                        )
                        | (?:
                            \[
                            (?: [^\[\]] | \k<arguments> )*
                            \]
                        )
                    )
                    (?:
                        \s*
                        (?:
                            ,
                            | &&
                            | \|\|
                            | \?{1,2}
                            | :
                            | ={1,3}
                            | !={1,2}
                            | >={0,2}
                            | <={0,2}
                        )
                    )?
                )++
            )
        "##;

/// An assignment to, or a comparison with, one of the properties that hold
/// classes, ids, markup or links. Comments match without groups. Groups:
/// the property, the arguments of `item`, the operator with the space
/// around it, the value.
pub const JS_PROPERTIES: &'static str = r##"(?x)
            \/\*[^*]*\*+(?>[^\/*][^*]*\*+)*\/
            | \/\/[^\n\r]*
            | (?<function>
                window.location.hash
                | window.location.href
                | window.location
                | \.id
                | \.className
                | \.classList
                    (?>
                        \[[0-9]++\]
                        | \.value
                        | \.item
                            (?<arguments>
                                \(
                                [^)(]*+(?:(\g<arguments>)[^)(]*)*+
                                \)
                            )
                    )?
                | \.innerHTML
                | \.outerHTML
            )
            (?<join>
                \s*+[=+\-!<>]{1,3}\s*+
            )
            (?<value>
                (?:
                    `(?:[^`\\] | \\.)*
                    [^)]`
                )
                | (?:
                    "(?:[^"\\] | \\.)*
                    [^)]
                )
                | (?:
                    '(?:[^'\\] | \\.)*
                    [^)]'
                )
            )
        "##;

/// An escape in a script or a link. Groups: a percent-encoded byte, a
/// `\x` escape, a `\u` escape of four digits, a `\u` escape in braces.
pub const ESCAPED_JS_CHARS: &'static str = r##"(?x)
            (?<url_encoded_char>
                %[0-9A-Fa-f]{2}
            )
            | (?<hexdecimal>
                \\x[0-9A-Fa-f]{2}
            )
            | (?<unicode>
                \\u[0-9A-Fa-f]{4}
            )
            | (?<unicode_codepoint>
                \\u{[0-9A-Fa-f]{1,}}
            )
        "##;

} // verus!
