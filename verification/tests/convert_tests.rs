use lingdocs::convert::{
    format_primatives, format_statements, ling_to_html, remove_last_char,
    split_lines_preserve_statements, Format,
};

#[test]
fn remove_last_char_works() {
    assert_eq!(remove_last_char("abc"), "ab");
    assert_eq!(remove_last_char("a"), "");
    assert_eq!(remove_last_char(""), "");
}

#[test]
fn split_lines_preserve_statements_works() {
    assert_eq!(
        split_lines_preserve_statements("abc\ndef\nghi"),
        vec!["abc", "def", "ghi"]
    );

    assert_eq!(
        split_lines_preserve_statements("{abc\ndef}\nghi"),
        vec!["{abc\ndef}", "ghi"]
    );

    assert_eq!(
        split_lines_preserve_statements("abc\nde{f\nghi\n\n\njkl}\n123"),
        vec!["abc", "de{f\nghi\n\n\njkl}", "123"]
    );

    assert_eq!(
        split_lines_preserve_statements("abc\nd{ef\nghi"),
        vec!["abc", "d{ef\nghi"]
    );

    assert_eq!(
        split_lines_preserve_statements("abc\nd{}ef\nghi"),
        vec!["abc", "d{}ef", "ghi"]
    );

    assert_eq!(
        split_lines_preserve_statements("abc\nd}ef\nghi"),
        vec!["abc", "d}ef", "ghi"]
    );
}

#[test]
fn language_statement_round_trip() {
    assert_eq!(
        format_statements("{'eng hello}"),
        "<span class=\"language with-name\">\
            <span class=\"name\"> eng </span>\
            <span class=\"text\"> hello </span>\
        </span>"
    );
}

#[test]
fn language_statement_without_name() {
    assert_eq!(
        format_statements("{'} and {' x}"),
        "<span class=\"language no-name\"><span class=\"text\">  </span></span> and \
         <span class=\"language no-name\"><span class=\"text\"> x </span></span>"
    );
}

#[test]
fn table_statement_with_column_formats() {
    assert_eq!(
        format_statements("{|'a|*b\nx|y}"),
        "\n<table class=\"table\">\n\
           \x20 <tr class=\"row\">\n\
           \x20   <th class=\"cell head\"> a </th>\n\
           \x20   <th class=\"cell head\"> b </th>\n\
           \x20 </tr>\n\
           \x20 <tr class=\"row\">\n\
           \x20   <td class=\"cell body\"> <span class=\"language no-name\"><span class=\"text\"> x </span></span> </td>\n\
           \x20   <td class=\"cell body\"> <code class=\"phoner\"> y </code> </td>\n\
           \x20 </tr>\n\
         </table>\n"
    );
}

#[test]
fn phoner_statement_strips_one_semicolon() {
    assert_eq!(
        format_statements("{* a b ;}"),
        "<code class=\"phoner\"> a b </code>"
    );
}

#[test]
fn link_format_maps_ling_extension() {
    let f = Format::Link("page.ling".to_string());
    assert_eq!(
        f.format("label"),
        "<a class=\"link\" href=\"page.html\"> label </a>"
    );

    let g = Format::Link("https://example.com".to_string());
    assert_eq!(
        g.format("x"),
        "<a class=\"link\" href=\"https://example.com\"> x </a>"
    );
}

#[test]
fn comment_and_replace_statements() {
    assert_eq!(format_statements("a{# hidden}b"), "ab");
    assert_eq!(format_statements("a{$ X}b"), "a{$$X}b");
}

#[test]
fn unknown_statement_keeps_content_after_trigger() {
    assert_eq!(format_statements("{xabc}"), "abc");
}

#[test]
fn unterminated_statement_drops_buffer() {
    assert_eq!(format_statements("ab{cd"), "ab");
}

#[test]
fn escaped_brace_is_literal() {
    assert_eq!(format_statements("a\\{b"), "a{b");
}

#[test]
fn primitive_toggles() {
    assert_eq!(format_primatives("*abc*"), "<i class=\"italics\">abc</i>");
    assert_eq!(format_primatives("*abc"), "<i class=\"italics\">abc");
    assert_eq!(format_primatives("^b^ _u_ ~s~"), "<b class=\"bold\">b</b> <u class=\"underline\">u</u> <strike class=\"strike\">s</strike>");
    assert_eq!(format_primatives("a\\*b"), "a*b");
}

#[test]
fn list_grouping_one_ul() {
    let html = ling_to_html("- x\n- y\n- z");
    assert_eq!(
        html,
        "<ul class=\"list\">\n<li>  x </li>\n<li>  y </li>\n<li>  z </li>\n</ul>"
    );
    assert_eq!(html.matches("<ul").count(), 1);
    assert_eq!(html.matches("<li>").count(), 3);
}

#[test]
fn list_kind_change_closes_previous_list() {
    let html = ling_to_html("- x\n. y");
    assert_eq!(
        html,
        "<ul class=\"list\">\n<li>  x </li>\n</ul>\n<ol class=\"list\">\n<li class=\"item\">  y </li>\n</ol>"
    );
}

#[test]
fn end_to_end_title_and_italic() {
    let html = ling_to_html("# Title\n\nHello *world*.");
    assert_eq!(
        html,
        "<h2 class=\"header\" id=\"title\">  Title </h2>\n<p class=\"line\"> Hello <i class=\"italics\">world</i>. </p>"
    );
    assert!(html.contains("id=\"title\""));
    assert!(html.contains("<i class=\"italics\">world</i>"));
}

#[test]
fn block_text_is_escaped() {
    assert_eq!(
        ling_to_html("a < b & c"),
        "<p class=\"line\"> a &lt; b &amp; c </p>"
    );
}

#[test]
fn quote_and_rule_blocks() {
    assert_eq!(
        ling_to_html("> words\n---"),
        "<blockquote class=\"quote\">  words </blockquote>\n<hr />"
    );
}

#[test]
fn emitted_tags_pass_through_later_passes_unchanged() {
    let html = ling_to_html("Hello world");
    assert_eq!(html, "<p class=\"line\"> Hello world </p>");
    let twice = format_primatives(&format_statements(&html));
    assert_eq!(twice, html);
}

#[test]
fn crlf_line_endings_are_normalized() {
    assert_eq!(
        ling_to_html("a\r\nb"),
        "<p class=\"line\"> a </p>\n<p class=\"line\"> b </p>"
    );
}

#[test]
fn empty_document_gives_empty_output() {
    assert_eq!(ling_to_html(""), "");
    assert_eq!(ling_to_html("\n\n\n"), "");
}

#[test]
fn whitespace_line_closes_open_list() {
    assert_eq!(
        ling_to_html("- x\n \n- y"),
        "<ul class=\"list\">\n<li>  x </li>\n</ul>\n<ul class=\"list\">\n<li>  y </li>\n</ul>"
    );
}

#[test]
fn raw_table_line_is_not_paragraph_wrapped() {
    let html = ling_to_html("{|a x| y}");
    assert_eq!(
        html,
        "\n<table class=\"table\">\n\
           \x20 <tr class=\"row\">\n\
           \x20   <th class=\"cell head\"> x </th>\n\
           \x20   <th class=\"cell head\"> y </th>\n\
           \x20 </tr>\n\
         </table>\n"
    );
    assert!(!html.contains("<p"));
}

#[test]
fn header_slug_drops_foreign_characters() {
    assert_eq!(
        ling_to_html("## A & B"),
        "<h3 class=\"header\" id=\"a--b\">  A &amp; B </h3>"
    );
}

#[test]
fn ipa_statements() {
    assert_eq!(
        format_statements("{/abc}"),
        "<span class=\"ipa broad\">\
            <span class=\"delim before\"> / </span>\
            <span class=\"text\"> abc </span>\
            <span class=\"delim after\"> / </span>\
        </span>"
    );
    assert_eq!(
        format_statements("{[abc}"),
        "<span class=\"ipa narrow\">\
            <span class=\"delim before\"> [ </span>\
            <span class=\"text\"> abc </span>\
            <span class=\"delim after\"> ] </span>\
        </span>"
    );
}
