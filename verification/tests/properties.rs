use sql_param::substitution::{replace_placeholder, values};

#[test]
fn no_placeholder_template_unchanged() {
    let sql = "SELECT * FROM user WHERE deleted = 0;";
    let out = replace_placeholder(sql, "zhangsan(String), 18(Integer)");
    assert_eq!(sql, out);
}

#[test]
fn string_like_tags_are_quoted() {
    assert_eq!("'abc'", replace_placeholder("?", "abc(String)"));
    assert_eq!(
        "'2025-06-13 16:44:56.499'",
        replace_placeholder("?", "2025-06-13 16:44:56.499(Timestamp)")
    );
}

#[test]
fn other_tags_are_not_quoted() {
    assert_eq!("18", replace_placeholder("?", "18(Integer)"));
    assert_eq!("123456789", replace_placeholder("?", "123456789(Long)"));
    assert_eq!("42", replace_placeholder("?", "42"));
    assert_eq!("x", replace_placeholder("?", "x(Unknown)"));
}

#[test]
fn excess_placeholders_emit_nothing() {
    assert_eq!("a = 1, b = ", replace_placeholder("a = ?, b = ?", "1(Integer)"));
}

#[test]
fn excess_values_are_ignored() {
    assert_eq!("a = 1", replace_placeholder("a = ?", "1(Integer), 2(Integer), 3(Integer)"));
}

#[test]
fn verbatim_characters_preserved_in_order() {
    let out = replace_placeholder("x?y?z", "a(String)");
    assert_eq!("x'a'yz", out);
    let kept: String = out.chars().filter(|c| *c != 'a' && *c != '\'').collect();
    assert_eq!("xyz", kept);
}

#[test]
fn value_parser_accepts_empty_input() {
    let vs = values("");
    assert_eq!(1, vs.len());
    assert_eq!("", vs[0].field_value);
    assert_eq!("", vs[0].field_type);
}

#[test]
fn value_parser_accepts_bare_commas() {
    let vs = values(",,");
    assert_eq!(3, vs.len());
    for v in &vs {
        assert_eq!("", v.field_value);
        assert_eq!("", v.field_type);
    }
}

#[test]
fn value_parser_accepts_unmatched_parentheses() {
    let vs = values("a(b, c)d, (String)");
    assert_eq!(3, vs.len());
    // an opening mark without a closing one yields an empty tag
    assert_eq!("a", vs[0].field_value);
    assert_eq!("", vs[0].field_type);
    // a closing mark without an opening one stays in the value text
    assert_eq!("c)d", vs[1].field_value);
    assert_eq!("", vs[1].field_type);
    // a missing value part yields an empty value text
    assert_eq!("", vs[2].field_value);
    assert_eq!("String", vs[2].field_type);
}

#[test]
fn value_parser_trims_segments() {
    let vs = values("  zhangsan(String) ,\t18(Integer)");
    assert_eq!(2, vs.len());
    assert_eq!("zhangsan", vs[0].field_value);
    assert_eq!("String", vs[0].field_type);
    assert_eq!("18", vs[1].field_value);
    assert_eq!("Integer", vs[1].field_type);
}

#[test]
fn value_parser_takes_tag_up_to_first_closing_mark() {
    let vs = values("a(b(c)d)");
    assert_eq!(1, vs.len());
    assert_eq!("a", vs[0].field_value);
    assert_eq!("b(c", vs[0].field_type);
}

#[test]
fn value_parser_keeps_text_after_value_part() {
    let vs = values("zhangsan (String)");
    assert_eq!(1, vs.len());
    // only the segment ends are trimmed; the space before the tag stays
    assert_eq!("zhangsan ", vs[0].field_value);
    assert_eq!("String", vs[0].field_type);
}

#[test]
fn cursor_runs_across_statement_boundaries() {
    let out = replace_placeholder("a = ?;b = ?;", "1(Integer), two(String)");
    assert_eq!("a = 1;b = 'two';", out);
}
