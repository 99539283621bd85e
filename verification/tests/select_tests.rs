use aluminum::select::{InvalidOperator, _Mapped, _Select, _WhereClause, _WhereOperator};

#[test]
fn operator_symbols() {
    assert_eq!(_WhereOperator::EQ.value(), "==");
    assert_eq!(_WhereOperator::NE.value(), "!=");
    assert_eq!(_WhereOperator::GT.value(), ">");
    assert_eq!(_WhereOperator::GE.value(), ">=");
    assert_eq!(_WhereOperator::LT.value(), "<");
    assert_eq!(_WhereOperator::LE.value(), "<=");
}

#[test]
fn operator_of_symbol() {
    assert_eq!(_WhereOperator::of("=="), Ok(_WhereOperator::EQ));
    assert_eq!(_WhereOperator::of("!="), Ok(_WhereOperator::NE));
    assert_eq!(_WhereOperator::of(">"), Ok(_WhereOperator::GT));
    assert_eq!(_WhereOperator::of(">="), Ok(_WhereOperator::GE));
    assert_eq!(_WhereOperator::of("<"), Ok(_WhereOperator::LT));
    assert_eq!(_WhereOperator::of("<="), Ok(_WhereOperator::LE));
}

#[test]
fn operator_of_unknown_symbol() {
    for s in ["", "=", "===", "<>", "eq", " ==", "=>"] {
        let e = _WhereOperator::of(s).unwrap_err();
        assert_eq!(e, InvalidOperator { symbol: s.to_string() });
        assert_eq!(e.message(), format!("Invalid operator: {}", s));
    }
}

#[test]
fn operator_round_trip() {
    for op in [
        _WhereOperator::EQ,
        _WhereOperator::NE,
        _WhereOperator::GT,
        _WhereOperator::GE,
        _WhereOperator::LT,
        _WhereOperator::LE,
    ] {
        assert_eq!(_WhereOperator::of(op.value()), Ok(op));
    }
}

#[test]
fn mapped_builds_each_comparison() {
    let mut temp = _Mapped::new("temp".to_string());
    assert_eq!(temp._get_col_name(), "temp");
    let cases = vec![
        (temp.__eq__("1".to_string()), _WhereOperator::EQ, "=="),
        (temp.__ne__("1".to_string()), _WhereOperator::NE, "!="),
        (temp.__gt__("1".to_string()), _WhereOperator::GT, ">"),
        (temp.__ge__("1".to_string()), _WhereOperator::GE, ">="),
        (temp.__lt__("1".to_string()), _WhereOperator::LT, "<"),
        (temp.__le__("1".to_string()), _WhereOperator::LE, "<="),
    ];
    for (clause, op, symbol) in cases {
        assert_eq!(clause.get_operator(), op);
        assert_eq!(clause.get_operator_str(), symbol);
        assert_eq!(clause.get_left_operand(), _Mapped::new("temp".to_string()));
        assert_eq!(clause.get_right_operand(), "1");
        assert_eq!(clause.__str__(), format!("temp {} 1", symbol));
    }
    assert_eq!(temp, _Mapped::new("temp".to_string()));
}

#[test]
fn where_clause_new_and_text() {
    let clause = _WhereClause::new(
        _Mapped::new("city".to_string()),
        "Oslo".to_string(),
        _WhereOperator::NE,
    );
    assert_eq!(clause.__str__(), "city != Oslo");
    assert_eq!(clause, _Mapped::new("city".to_string()).__ne__("Oslo".to_string()));
}

#[test]
fn select_starts_empty() {
    let select = _Select::new("Weather".to_string());
    assert_eq!(select._get_raw_query(), "");
}

#[test]
fn select_renders_bucket_range_and_filter() {
    let mut select = _Select::new("Weather".to_string());
    select._create_bucket_str("weather".to_string());
    select
        ._where(_Mapped::new("temp".to_string()), "20".to_string(), ">".to_string())
        .unwrap();
    select._create_raw_query();
    assert_eq!(
        select._get_raw_query(),
        "from(bucket: \"weather\") |> range(start: -1h) |> filter(fn: (r) => r.temp > 20)"
    );
}

#[test]
fn literal_that_is_an_integer_is_not_quoted() {
    let mut select = _Select::new("M".to_string());
    select._where(_Mapped::new("x".to_string()), "42".to_string(), "==".to_string()).unwrap();
    select._create_filter_str();
    assert_eq!(select._get_raw_query(), " |> filter(fn: (r) => r.x == 42)");
}

#[test]
fn literal_that_is_no_integer_is_quoted() {
    let mut select = _Select::new("M".to_string());
    select._where(_Mapped::new("x".to_string()), "abc".to_string(), "==".to_string()).unwrap();
    select._create_filter_str();
    assert_eq!(select._get_raw_query(), " |> filter(fn: (r) => r.x == \"abc\")");
}

#[test]
fn literals_at_the_edge_of_32_bits() {
    let mut select = _Select::new("M".to_string());
    for lit in ["2147483647", "2147483648", "-2147483648", "1.5", "true", "", "+7", "007"] {
        select._where(_Mapped::new("x".to_string()), lit.to_string(), "<=".to_string()).unwrap();
    }
    select._create_filter_str();
    assert_eq!(
        select._get_raw_query(),
        concat_all(&[
            " |> filter(fn: (r) => r.x <= 2147483647)",
            " |> filter(fn: (r) => r.x <= \"2147483648\")",
            " |> filter(fn: (r) => r.x <= -2147483648)",
            " |> filter(fn: (r) => r.x <= \"1.5\")",
            " |> filter(fn: (r) => r.x <= \"true\")",
            " |> filter(fn: (r) => r.x <= \"\")",
            " |> filter(fn: (r) => r.x <= 7)",
            " |> filter(fn: (r) => r.x <= 7)",
        ])
    );
}

fn concat_all(parts: &[&str]) -> String {
    let mut out = String::new();
    for p in parts {
        out.push_str(p);
    }
    out
}

#[test]
fn where_with_unknown_operator_changes_nothing() {
    let mut select = _Select::new("M".to_string());
    select._create_bucket_str("b".to_string());
    let r = select._where(_Mapped::new("x".to_string()), "1".to_string(), "=~".to_string());
    assert_eq!(r, Err(InvalidOperator { symbol: "=~".to_string() }));
    select._create_raw_query();
    assert_eq!(select._get_raw_query(), "from(bucket: \"b\") |> range(start: -1h)");
}

#[test]
fn filters_come_in_the_order_of_the_comparisons() {
    let mut select = _Select::new("M".to_string());
    select._create_bucket_str("b".to_string());
    select._where(_Mapped::new("a".to_string()), "1".to_string(), "!=".to_string()).unwrap();
    select._where(_Mapped::new("b".to_string()), "x y".to_string(), "<".to_string()).unwrap();
    select._create_raw_query();
    assert_eq!(
        select._get_raw_query(),
        "from(bucket: \"b\") |> range(start: -1h) |> filter(fn: (r) => r.a != 1) |> filter(fn: (r) => r.b < \"x y\")"
    );
}

#[test]
fn rendering_twice_appends_again() {
    let mut select = _Select::new("M".to_string());
    select._create_bucket_str("b".to_string());
    select._where(_Mapped::new("a".to_string()), "1".to_string(), "==".to_string()).unwrap();
    select._create_raw_query();
    select._create_raw_query();
    assert_eq!(
        select._get_raw_query(),
        "from(bucket: \"b\") |> range(start: -1h) |> filter(fn: (r) => r.a == 1) |> range(start: -1h) |> filter(fn: (r) => r.a == 1)"
    );
}

#[test]
fn bucket_clause_starts_the_text_over() {
    let mut select = _Select::new("M".to_string());
    select._create_bucket_str("one".to_string());
    select._create_range_str();
    assert_eq!(select._get_raw_query(), "from(bucket: \"one\") |> range(start: -1h)");
    select._create_bucket_str("two".to_string());
    assert_eq!(select._get_raw_query(), "from(bucket: \"two\")");
}
