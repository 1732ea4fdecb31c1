use loom_markup::parse;

#[test]
fn parse_table() {
    let res = parse("|\n||aaa|bbb|h\n|ccc||~ddd|");
    assert_eq!(
        res,
        "|<br><table><tbody><tr><th></th><th>aaa</th><th>bbb</th></tr><tr><td>ccc</td><td></td><th>ddd</th></tr></tbody></table>"
    )
}

#[test]
fn parse_orderd_list() {
    let res = parse("+ aaa");
    assert_eq!(res, "<ol><li> aaa</li></ol>")
}

#[test]
fn parse_header() {
    let res = parse("*** これは見出しです。");
    assert_eq!(res, "<h3>これは見出しです。</h3>")
}

#[test]
fn parse_italic() {
    let res = parse("これは'''イタリック'''です。");
    assert_eq!(res, "これは<i>イタリック</i>です。<br>");
}

#[test]
fn parse_bold() {
    let res = parse("これは''ボールド''です。");
    assert_eq!(res, "これは<b>ボールド</b>です。<br>");
}

#[test]
fn parse_quote() {
    let res = parse("\n{quote}\naaa\n{/quote}\n");
    assert_eq!(res, "<br><br><blockquote>aaa<br></blockquote><br>");
}

#[test]
fn parse_url() {
    let res_1 = parse("[[Google>https://google.com]]");
    let res_2 = parse("[[Google:https://google.com]]");
    let res_3 = parse("https://google.com");
    assert_eq!(res_1, res_2);
    assert_eq!(res_1, "<a href=\"https://google.com\" target=\"_blank\" rel=\"noopener noreferrer\" class=\"loom-link-another\">Google</a><br>");
    assert_eq!(res_3, "<a href=\"https://google.com\" target=\"_blank\" rel=\"noopener noreferrer\" class=\"loom-link-another\">https://google.com</a><br>");
}

#[test]
fn parse_inline_code() {
    let res = parse("aaa{code}bbb{/code}ccc");
    assert_eq!(res, "aaa<code class=\"prettyprint prettyprinted\" style><span class=\"typ\">bbb</span></code>ccc<br>");
}

#[test]
fn parse_code() {
    let res = parse("aaa\n{code}\nhoge\nfuga\n{/code}\n");
    assert_eq!(
        res,
        "aaa<pre class=\"loom_code loom_code_cs\">hoge\nfuga</pre><br>"
    );
}

#[test]
fn escapes_every_special_character() {
    let res = parse("<>\"'`&");
    assert_eq!(res, "&lt;&gt;&quot;&#x27;&#x60;&amp;<br>");
}

#[test]
fn empty_line_is_a_bare_break() {
    assert_eq!(parse(""), "");
    assert_eq!(parse("\n"), "<br>");
    assert_eq!(parse("a\n\nb"), "a<br><br>b<br>");
}

#[test]
fn list_nesting_opens_and_closes_match() {
    let res = parse("-a\n--b\n---c\n--d\n-e");
    assert_eq!(
        res,
        "<ul><li>a<ul><li>b<ul><li>c</li></ul><li>d</li></ul><li>e</li></ul>"
    );
    let opens = res.matches("<ul>").count();
    let closes = res.matches("</ul>").count();
    assert_eq!(opens, closes);
}

#[test]
fn strike_pass() {
    assert_eq!(parse("a%%b%%c"), "a<strike>b</strike>c<br>");
}

#[test]
fn color_single_value() {
    assert_eq!(
        parse("&color(red){ text }"),
        "<span style=\"color: red;\">text</span><br>"
    );
}

#[test]
fn color_two_values() {
    assert_eq!(
        parse("&color(red, blue){x}"),
        "<span style=\"color: red;background-color: blue;\">x</span><br>"
    );
}

#[test]
fn header_levels() {
    assert_eq!(parse("* x"), "<h1>x</h1>");
    assert_eq!(parse("****** x"), "<h6>x</h6>");
    assert_eq!(parse("******* x"), "******* x<br>");
}

#[test]
fn unterminated_fence_stays_text() {
    assert_eq!(parse("{code}\nx"), "{code}<br>x<br>");
}

#[test]
fn two_fences_separated_by_blank_line() {
    let res = parse("{code}\na\n{/code}\n\n{code}\nb\n{/code}\n");
    assert_eq!(
        res,
        "<pre class=\"loom_code loom_code_cs\">a</pre><pre class=\"loom_code loom_code_cs\">b</pre><br>"
    );
}

#[test]
fn stray_placeholder_is_replaced_by_nothing() {
    assert_eq!(parse("gPvErkJM67vL"), "<br>");
}

#[test]
fn literal_break_directive() {
    assert_eq!(parse("a&br;b"), "a<br>b<br>");
}

#[test]
fn bare_url_in_running_text() {
    assert_eq!(
        parse("see https://x.io/a now"),
        "see <a href=\"https://x.io/a\" target=\"_blank\" rel=\"noopener noreferrer\" class=\"loom-link-another\">https://x.io/a</a> now<br>"
    );
}

#[test]
fn table_plain_row() {
    assert_eq!(
        parse("|a|b|"),
        "<table><tbody><tr><td>a</td><td>b</td></tr></tbody></table>"
    );
}

#[test]
fn single_line_quote() {
    assert_eq!(parse(">q1\n>q2"), "<blockquote>q1<br>q2<br></blockquote>");
}

#[test]
fn crlf_line_breaks() {
    assert_eq!(parse("a\r\nb"), "a<br>b<br>");
}

#[test]
fn crlf_code_fence() {
    assert_eq!(
        parse("{code}\r\nx\r\n{/code}\r\n"),
        "<pre class=\"loom_code loom_code_cs\">x</pre><br>"
    );
}

#[test]
fn quote_block_after_single_line_quote() {
    let res = parse(">a\n{quote}\nb\n{/quote}\n");
    assert_eq!(
        res,
        "<blockquote>a<br></blockquote><br><blockquote>b<br></blockquote><br>"
    );
}
