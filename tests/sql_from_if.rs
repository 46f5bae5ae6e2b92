use stata_parquet::sql_from_if::{restore_quoted, stata_to_sql};

#[test]
fn test_stata_functions_converted() {
    assert_eq!(stata_to_sql("missing(age)"), "age IS NULL");
    assert_eq!(stata_to_sql("!missing(age)"), "age IS NOT NULL");
    assert_eq!(stata_to_sql("inrange(age, 18, 65)"), "age BETWEEN 18 AND 65");
    assert_eq!(stata_to_sql("inlist(country, \"USA\", \"Canada\")"), "country IN (\"USA\", \"Canada\")");
    assert_eq!(stata_to_sql("ceil(value)"), "CEILING(value)");
    assert_eq!(stata_to_sql("mod(x, 5)"), "(x % 5)");
}

#[test]
fn test_stata_operators_converted() {
    assert_eq!(stata_to_sql("age > 30 & gender == \"male\""), "age > 30 AND gender = \"male\"");
    assert_eq!(stata_to_sql("status == 1 | status == 2"), "status = 1 OR status = 2");
}

#[test]
fn test_sql_syntax_unchanged() {
    assert_eq!(stata_to_sql("age > 30 AND gender = 'male'"), "age > 30 AND gender = 'male'");
    assert_eq!(stata_to_sql("status = 1 OR status = 2"), "status = 1 OR status = 2");
    assert_eq!(stata_to_sql("value BETWEEN 1 AND 10"), "value BETWEEN 1 AND 10");
    assert_eq!(stata_to_sql("country IN ('USA', 'Canada')"), "country IN ('USA', 'Canada')");
    assert_eq!(stata_to_sql("name IS NULL"), "name IS NULL");
    assert_eq!(stata_to_sql("name IS NOT NULL"), "name IS NOT NULL");
    assert_eq!(stata_to_sql("CEILING(value)"), "CEILING(value)");
    assert_eq!(stata_to_sql("FLOOR(value)"), "FLOOR(value)");
    assert_eq!(stata_to_sql("CAST(x AS INTEGER)"), "CAST(x AS INTEGER)");
}

#[test]
fn test_mixed_syntax() {
    assert_eq!(
        stata_to_sql("inrange(age, 18, 65) AND status = 'active'"),
        "age BETWEEN 18 AND 65 AND status = 'active'"
    );
    assert_eq!(
        stata_to_sql("missing(income) | salary IS NOT NULL"),
        "income IS NULL OR salary IS NOT NULL"
    );
}

#[test]
fn test_complex_mixed_expression() {
    let input = "inrange(age, 18, 65) & !missing(income) | status = 'exempt' AND CEILING(score) > 80";
    let expected = "age BETWEEN 18 AND 65 AND income IS NOT NULL OR status = 'exempt' AND CEILING(score) > 80";
    assert_eq!(stata_to_sql(input), expected);
}

#[test]
fn test_operators_in_strings_unchanged() {
    assert_eq!(stata_to_sql("name = 'John & Jane'"), "name = 'John & Jane'");
    assert_eq!(stata_to_sql("text = \"a | b\""), "text = \"a | b\"");
    assert_eq!(stata_to_sql("value = 'x == y'"), "value = 'x == y'");
    assert_eq!(stata_to_sql("desc = \"missing(data)\""), "desc = \"missing(data)\"");
}

#[test]
fn test_operator_spacing_variations() {
    assert_eq!(stata_to_sql("a&b"), "a AND b");
    assert_eq!(stata_to_sql("a & b"), "a AND b");
    assert_eq!(stata_to_sql("a  &  b"), "a AND b");
    assert_eq!(stata_to_sql("a|b"), "a OR b");
    assert_eq!(stata_to_sql("a | b"), "a OR b");
    assert_eq!(stata_to_sql("a  |  b"), "a OR b");
}

#[test]
fn test_mixed_quotes_and_operators() {
    assert_eq!(
        stata_to_sql("name = 'John & Jane' & age > 30"),
        "name = 'John & Jane' AND age > 30"
    );
    assert_eq!(
        stata_to_sql("missing(name) | desc = \"has | in text\""),
        "name IS NULL OR desc = \"has | in text\""
    );
}

#[test]
fn quoted_segments_are_put_back() {
    let quoted = vec!["'a b'".chars().collect::<Vec<char>>(), "\"c\"".chars().collect::<Vec<char>>()];
    assert_eq!(restore_quoted("x = \u{E000} AND y IN (\u{E000})", &quoted), "x = 'a b' AND y IN (\"c\")");
    assert_eq!(restore_quoted("\u{E000}\u{E000}\u{E000}", &quoted), "'a b'\"c\"\u{E000}");
    assert_eq!(stata_to_sql("note == \"\u{E000}\" & x == 1"), "note = \"\u{E000}\" AND x = 1");
}
