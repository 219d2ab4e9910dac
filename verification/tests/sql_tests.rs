use clickhouse::error::BindError;
use clickhouse::sql::{identifier_is_valid, parse_string_literal, Bind, SqlBuilder};
use clickhouse::text::{decimal_string, to_chars};

fn render(template: &str, args: Vec<Bind>) -> Result<String, BindError> {
    let mut sql = SqlBuilder::new(template);
    for arg in args {
        sql.bind_arg(arg);
    }
    sql.finish()
}

#[test]
fn renders_template_without_placeholders() {
    assert_eq!(render("SELECT 1", vec![]), Ok("SELECT 1".to_string()));
    assert_eq!(render("", vec![]), Ok(String::new()));
}

#[test]
fn binds_arguments_from_left_to_right() {
    let text = render(
        "SELECT * FROM t WHERE a = ? AND b = ? AND c = ?",
        vec![Bind::UInt(1), Bind::Str("two".to_string()), Bind::Int(-3)],
    );
    assert_eq!(text, Ok("SELECT * FROM t WHERE a = 1 AND b = 'two' AND c = -3".to_string()));
}

#[test]
fn exact_number_of_arguments_renders() {
    for n in 0..5usize {
        let template = "?,".repeat(n);
        let args: Vec<Bind> = (0..n).map(|i| Bind::UInt(i as u64)).collect();
        let expected: String = (0..n).map(|i| format!("{i},")).collect();
        assert_eq!(render(&template, args), Ok(expected));
    }
}

#[test]
fn fewer_arguments_fail_with_missing_argument() {
    assert_eq!(render("?", vec![]), Err(BindError::MissingArgument));
    assert_eq!(render("a = ? AND b = ?", vec![Bind::UInt(1)]), Err(BindError::MissingArgument));
}

#[test]
fn more_arguments_fail_with_unused_arguments() {
    assert_eq!(render("SELECT 1", vec![Bind::UInt(1)]), Err(BindError::UnusedArguments));
    assert_eq!(
        render("a = ?", vec![Bind::UInt(1), Bind::UInt(2)]),
        Err(BindError::UnusedArguments)
    );
}

#[test]
fn string_is_quoted_and_escaped() {
    assert_eq!(render("?", vec![Bind::Str("plain".to_string())]), Ok("'plain'".to_string()));
    assert_eq!(render("?", vec![Bind::Str(String::new())]), Ok("''".to_string()));
    assert_eq!(
        render("?", vec![Bind::Str("it's".to_string())]),
        Ok("'it\\'s'".to_string())
    );
    assert_eq!(
        render("?", vec![Bind::Str("a\\b".to_string())]),
        Ok("'a\\\\b'".to_string())
    );
    assert_eq!(
        render("?", vec![Bind::Str("\\'".to_string())]),
        Ok("'\\\\\\''".to_string())
    );
}

#[test]
fn escaped_string_round_trips() {
    for given in ["", "plain", "it's", "back\\slash", "'", "\\", "\\'\\'", "naïve 'ж' \\ 雪", "??"] {
        let mut sql = SqlBuilder::new("?");
        sql.bind_arg(Bind::Str(given.to_string()));
        let literal = sql.finish().unwrap();
        assert_eq!(parse_string_literal(&literal), Some(given.to_string()));
    }
}

#[test]
fn parse_string_literal_rejects_what_is_no_literal() {
    assert_eq!(parse_string_literal(""), None);
    assert_eq!(parse_string_literal("'"), None);
    assert_eq!(parse_string_literal("abc"), None);
    assert_eq!(parse_string_literal("'abc"), None);
    assert_eq!(parse_string_literal("'a'b'"), None);
    assert_eq!(parse_string_literal("'a\\'"), None);
    assert_eq!(parse_string_literal("''"), Some(String::new()));
    assert_eq!(parse_string_literal("'a\\nb'"), Some("anb".to_string()));
}

#[test]
fn numbers_render_in_decimal() {
    assert_eq!(render("?", vec![Bind::UInt(0)]), Ok("0".to_string()));
    assert_eq!(render("?", vec![Bind::UInt(10)]), Ok("10".to_string()));
    assert_eq!(render("?", vec![Bind::UInt(u64::MAX)]), Ok("18446744073709551615".to_string()));
    assert_eq!(render("?", vec![Bind::Int(0)]), Ok("0".to_string()));
    assert_eq!(render("?", vec![Bind::Int(-1)]), Ok("-1".to_string()));
    assert_eq!(render("?", vec![Bind::Int(i64::MAX)]), Ok("9223372036854775807".to_string()));
    assert_eq!(render("?", vec![Bind::Int(i64::MIN)]), Ok("-9223372036854775808".to_string()));
}

#[test]
fn decimal_string_matches_std() {
    for n in [0u64, 1, 9, 10, 11, 99, 100, 8192, 20000, 4294967296, u64::MAX] {
        assert_eq!(decimal_string(n), n.to_string());
    }
}

#[test]
fn identifier_is_quoted_with_back_ticks() {
    assert_eq!(
        render("SELECT ? FROM ?", vec![
            Bind::Identifier("col_1".to_string()),
            Bind::Identifier("db.table".to_string()),
        ]),
        Ok("SELECT `col_1` FROM `db.table`".to_string())
    );
}

#[test]
fn invalid_identifier_fails_at_render() {
    for name in ["a b", "a`b", "a'b", "a-b", "a;b", "tab\tle", "é"] {
        assert_eq!(
            render("SELECT * FROM ?", vec![Bind::Identifier(name.to_string())]),
            Err(BindError::InvalidIdentifier)
        );
    }
}

#[test]
fn invalid_identifier_fails_wherever_it_stands() {
    let args = vec![Bind::UInt(1), Bind::Identifier("no good".to_string()), Bind::UInt(3)];
    assert_eq!(render("? ? ?", args), Err(BindError::InvalidIdentifier));
}

#[test]
fn identifier_accepts_letters_digits_underscore_and_dot() {
    assert!(identifier_is_valid(&to_chars("Abc_09.z")));
    assert!(identifier_is_valid(&to_chars("")));
    assert!(!identifier_is_valid(&to_chars("a b")));
    assert!(!identifier_is_valid(&to_chars("a/b")));
    assert!(!identifier_is_valid(&to_chars("a:b")));
    assert!(!identifier_is_valid(&to_chars("a@b")));
    assert!(!identifier_is_valid(&to_chars("a[b")));
    assert!(!identifier_is_valid(&to_chars("a{b")));
}

#[test]
fn first_failure_from_the_left_wins() {
    assert_eq!(
        render("? ?", vec![Bind::Identifier("bad name".to_string())]),
        Err(BindError::InvalidIdentifier)
    );
    assert_eq!(render("? ?fields", vec![]), Err(BindError::MissingArgument));
    assert_eq!(render("?fields ?", vec![]), Err(BindError::UnboundFields));
}

#[test]
fn fields_are_joined_by_commas() {
    let mut sql = SqlBuilder::new("SELECT ?fields FROM t WHERE a = ?");
    sql.bind_arg(Bind::UInt(7));
    sql.bind_fields(&vec!["no".to_string(), "name".to_string(), "at".to_string()]);
    assert_eq!(sql.finish(), Ok("SELECT no,name,at FROM t WHERE a = 7".to_string()));
}

#[test]
fn one_field_has_no_comma() {
    let mut sql = SqlBuilder::new("SELECT ?fields FROM t");
    sql.bind_fields(&vec!["no".to_string()]);
    assert_eq!(sql.finish(), Ok("SELECT no FROM t".to_string()));
}

#[test]
fn unbound_fields_fail() {
    assert_eq!(render("SELECT ?fields FROM t", vec![]), Err(BindError::UnboundFields));
}

#[test]
fn fields_take_no_argument() {
    let mut sql = SqlBuilder::new("SELECT ?fields FROM t");
    sql.bind_fields(&vec!["no".to_string()]);
    sql.bind_arg(Bind::UInt(1));
    assert_eq!(sql.finish(), Err(BindError::UnusedArguments));
}

#[test]
fn question_mark_before_other_word_is_a_placeholder() {
    assert_eq!(render("?field", vec![Bind::UInt(1)]), Ok("1field".to_string()));
    assert_eq!(render("?fieldx", vec![Bind::UInt(1)]), Ok("1fieldx".to_string()));
}

#[test]
fn appended_text_is_not_parsed() {
    let mut sql = SqlBuilder::new("SELECT ?");
    sql.bind_arg(Bind::UInt(1));
    sql.append(" -- why?");
    sql.append(" ?fields");
    assert_eq!(sql.finish(), Ok("SELECT 1 -- why? ?fields".to_string()));
}

#[test]
fn to_chars_gives_every_character() {
    assert_eq!(to_chars("aж雪"), vec!['a', 'ж', '雪']);
    assert_eq!(to_chars(""), Vec::<char>::new());
}
