use beautiful_mermaid::inline::{render_line_content, render_lines_content};
use beautiful_mermaid::markup::{escape_xml, normalize_br_tags, strip_formatting_tags};

#[test]
fn normalize_br_tags_handles_markdown_and_html() {
    assert_eq!(normalize_br_tags("a<br>b"), "a\nb");
    assert_eq!(normalize_br_tags("a<br/ >b"), "a<br/ >b");
    assert_eq!(normalize_br_tags("a\\nb"), "a\nb");
    assert_eq!(normalize_br_tags("\""), "");
    assert_eq!(normalize_br_tags("**text**"), "<b>text</b>");
    assert_eq!(
        normalize_br_tags("**a<br>b** and ~~x<br>y~~"),
        "**a\nb** and ~~x\ny~~"
    );
    assert_eq!(
        normalize_br_tags("**a\rb** and ~~x\ry~~"),
        "**a\rb** and ~~x\ry~~"
    );
    assert_eq!(
        normalize_br_tags("**a\u{2028}b** and ~~x\u{2029}y~~"),
        "**a\u{2028}b** and ~~x\u{2029}y~~"
    );
    assert_eq!(normalize_br_tags("*****"), "<b>*</b>");
    assert_eq!(normalize_br_tags("*a* 与 * a *"), "<i>a</i> 与 * a *");
    assert_eq!(normalize_br_tags("~~text~~"), "<s>text</s>");
    assert_eq!(normalize_br_tags("~~~~~"), "<s>~</s>");
    assert_eq!(normalize_br_tags("H<sub>2</sub>O"), "H2O");
}

#[test]
fn strip_and_escape_follow_ts_behavior() {
    assert_eq!(
        strip_formatting_tags("<b>bold</b> <i>italic</i>"),
        "bold italic"
    );
    assert_eq!(escape_xml("& < > \" '"), "&amp; &lt; &gt; &quot; &#39;");
}

#[test]
fn br_tag_variants_and_case() {
    assert_eq!(normalize_br_tags("a<BR>b<br/>c<Br   />d<br\t>e"), "a\nb\nc\nd\ne");
    assert_eq!(normalize_br_tags("a<brx>b"), "a<brx>b");
    assert_eq!(normalize_br_tags("a<br"), "a<br");
}

#[test]
fn quotes_are_stripped_once() {
    assert_eq!(normalize_br_tags("\"hello\""), "hello");
    assert_eq!(normalize_br_tags("\"\"x\"\""), "\"x\"");
    assert_eq!(normalize_br_tags("\"open"), "\"open");
    assert_eq!(normalize_br_tags(""), "");
}

#[test]
fn strip_only_tags_keep_content() {
    assert_eq!(
        normalize_br_tags("x<SUP>2</sup> <small>s</small> <mark >m</MARK>"),
        "x2 s m"
    );
    assert_eq!(normalize_br_tags("<subx>a</sub >"), "<subx>a");
}

#[test]
fn unmatched_markers_stay_literal() {
    assert_eq!(normalize_br_tags("**open"), "**open");
    assert_eq!(normalize_br_tags("a ** b ** c"), "a <b> b </b> c");
    assert_eq!(normalize_br_tags("~~a\nb~~"), "~~a\nb~~");
    assert_eq!(normalize_br_tags("*a*b*"), "<i>a</i>b*");
    assert_eq!(normalize_br_tags("*a**"), "*a**");
    assert_eq!(normalize_br_tags("* a*"), "* a*");
    assert_eq!(normalize_br_tags("*a\u{3000}*"), "*a\u{3000}*");
}

#[test]
fn escape_leaves_other_text_alone() {
    assert_eq!(escape_xml(""), "");
    assert_eq!(escape_xml("plain 测试"), "plain 测试");
    assert_eq!(escape_xml("a&&b"), "a&amp;&amp;b");
}

#[test]
fn strip_formatting_tag_forms() {
    assert_eq!(strip_formatting_tags("<STRONG>a</strong >"), "a");
    assert_eq!(strip_formatting_tags("<em>e</EM><u>u</u><del>d</del><s>s</s>"), "euds");
    assert_eq!(strip_formatting_tags("<sub>x</sub>"), "<sub>x</sub>");
    assert_eq!(strip_formatting_tags("<b/>"), "<b/>");
}

#[test]
fn line_content_without_tags_is_escaped() {
    assert_eq!(render_line_content("a < b"), "a &lt; b");
    assert_eq!(render_line_content(""), "");
}

#[test]
fn line_content_wraps_styled_runs() {
    assert_eq!(
        render_line_content("x<b>bold</b>y"),
        "x<tspan font-weight=\"bold\">bold</tspan>y"
    );
    assert_eq!(
        render_line_content("<i>a&b</i>"),
        "<tspan font-style=\"italic\">a&amp;b</tspan>"
    );
    assert_eq!(
        render_line_content("<b><u><s>all</s></u></b>"),
        "<tspan font-weight=\"bold\" text-decoration=\"underline line-through\">all</tspan>"
    );
    assert_eq!(
        render_line_content("<del>d</del>"),
        "<tspan text-decoration=\"line-through\">d</tspan>"
    );
    assert_eq!(
        render_line_content("<strong><em>z</em></strong>"),
        "<tspan font-weight=\"bold\" font-style=\"italic\">z</tspan>"
    );
}

#[test]
fn tags_without_effect_collapse() {
    assert_eq!(render_line_content("a</b>b"), "ab");
    assert_eq!(render_line_content("<b></b>"), "");
}

#[test]
fn lines_render_one_by_one() {
    assert_eq!(
        render_lines_content("line1\n<b>line2</b>\n"),
        vec![
            "line1".to_string(),
            "<tspan font-weight=\"bold\">line2</tspan>".to_string(),
            String::new()
        ]
    );
}
