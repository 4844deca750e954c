use chrono::format::strftime::StrftimeItems;
use chrono::{Datelike, NaiveDate, NaiveDateTime, Utc};
use plexrbac::common::{Property, RbacError, ValueWrapper};
use plexrbac::utils::evaluator::{call_builtin, evaluate, verdict, Builtin, Evaluated};

fn ints(values: &[i64]) -> Vec<ValueWrapper> {
    values.iter().map(|v| ValueWrapper::Int(*v)).collect()
}

#[test]
fn test_date_epoch_secs() {
    assert_eq!(Ok(ValueWrapper::Int(1562284800)), call_builtin(Builtin::DateEpochSecs, &ints(&[2019, 7, 5])));
    assert_eq!(Ok(ValueWrapper::Int(0)), call_builtin(Builtin::DateEpochSecs, &ints(&[1970, 1, 1])));
    assert_eq!(Ok(ValueWrapper::Int(-86400)), call_builtin(Builtin::DateEpochSecs, &ints(&[1969, 12, 31])));
    assert_eq!(
        Ok(ValueWrapper::Int(1562370964)),
        call_builtin(Builtin::DatetimeEpochSecs, &ints(&[2019, 7, 5, 23, 56, 4]))
    );
    assert_eq!(Ok(true), evaluate("date_epoch_secs(2019, 7, 5) == 1562284800", &Vec::new()));
    assert_eq!(Ok(true), evaluate("datetime_epoch_secs(2019, 7, 5, 23, 56, 4) == 1562370964", &Vec::new()));
}

#[test]
fn test_dates_that_do_not_exist_are_errors() {
    for args in [
        ints(&[2019, 2, 30]),
        ints(&[2019, 13, 1]),
        ints(&[2019, 0, 1]),
        ints(&[2019, -1, 1]),
        ints(&[2019, 1]),
        ints(&[2019, 1, 1, 0]),
        ints(&[5_000_000_000, 1, 1]),
        ints(&[2019, 5_000_000_000, 1]),
        vec![ValueWrapper::Int(2019), ValueWrapper::Int(1), ValueWrapper::String("1".to_string())],
    ] {
        match call_builtin(Builtin::DateEpochSecs, &args) {
            Err(RbacError::Evaluation(_)) => {},
            other => panic!("unexpected {:?}", other),
        }
    }
    assert!(call_builtin(Builtin::DatetimeEpochSecs, &ints(&[2019, 7, 5, 24, 0, 0])).is_err());
    assert!(call_builtin(Builtin::DatetimeEpochSecs, &ints(&[2019, 7, 5])).is_err());
    assert!(evaluate("date_epoch_secs(2019, 2, 30) == 0", &Vec::new()).is_err());
}

#[test]
fn test_regex_builtins() {
    let args = vec![ValueWrapper::String("^a+$".to_string()), ValueWrapper::String("aaa".to_string())];
    assert_eq!(Ok(ValueWrapper::Bool(true)), call_builtin(Builtin::RegexMatch, &args));
    let args = vec![ValueWrapper::String("b".to_string()), ValueWrapper::String("aaa".to_string())];
    assert_eq!(Ok(ValueWrapper::Bool(false)), call_builtin(Builtin::RegexFind, &args));
    let args = vec![ValueWrapper::String("a".to_string()), ValueWrapper::String("xax".to_string())];
    assert_eq!(Ok(ValueWrapper::Bool(true)), call_builtin(Builtin::RegexFind, &args));
    assert_eq!(Ok(ValueWrapper::Bool(false)), call_builtin(Builtin::RegexMatch, &args));
    assert!(call_builtin(Builtin::RegexFind, &ints(&[1, 2])).is_err());
    assert!(call_builtin(Builtin::RegexMatch, &vec![ValueWrapper::String("a".to_string())]).is_err());
    assert!(evaluate("regex_match(1, 2)", &Vec::new()).is_err());
    assert_eq!(Ok(false), evaluate("regex_match(\"a\", \"xax\")", &Vec::new()));
}

#[test]
fn test_clock_builtins() {
    let before = Utc::now();
    let year = call_builtin(Builtin::CurrentYear, &Vec::new()).unwrap();
    let month = call_builtin(Builtin::CurrentMonth, &Vec::new()).unwrap();
    let day = call_builtin(Builtin::DayOfMonth, &Vec::new()).unwrap();
    let ordinal = call_builtin(Builtin::CurrentOrdinal, &Vec::new()).unwrap();
    let weekday = call_builtin(Builtin::CurrentWeekday, &Vec::new()).unwrap();
    let secs = call_builtin(Builtin::CurrentEpochSecs, &Vec::new()).unwrap();
    let after = Utc::now();
    if before.ordinal() == after.ordinal() {
        assert_eq!(ValueWrapper::Int(before.year() as i64), year);
        assert_eq!(ValueWrapper::Int(before.month() as i64), month);
        assert_eq!(ValueWrapper::Int(before.day() as i64), day);
        assert_eq!(ValueWrapper::Int(before.ordinal() as i64), ordinal);
        assert_eq!(ValueWrapper::String(format!("{:?}", before.weekday())), weekday);
    }
    match secs {
        ValueWrapper::Int(s) => assert!(before.timestamp() <= s && s <= after.timestamp()),
        other => panic!("unexpected {:?}", other),
    }
    assert_eq!(Ok(true), evaluate("current_epoch_secs() > 1562284800 && current_month() <= 12", &Vec::new()));
    assert_eq!(Ok(true), evaluate("day_of_month() >= 1 && current_year() >= 2024", &Vec::new()));
}

#[test]
fn test_verdict_messages() {
    assert_eq!(Ok(true), verdict(&Evaluated::Boolean(true), "x"));
    assert_eq!(Ok(false), verdict(&Evaluated::Boolean(false), "x"));
    assert_eq!(
        Err(RbacError::Evaluation("Invalid int expression, only boolean results are supported '1 + 1'".to_string())),
        verdict(&Evaluated::Int(2), "1 + 1")
    );
    assert_eq!(
        Err(RbacError::Evaluation("Invalid float expression, only boolean results are supported 'x'".to_string())),
        verdict(&Evaluated::Float(0), "x")
    );
    assert_eq!(
        Err(RbacError::Evaluation(
            "Invalid string expression abc, only boolean results are supported 'x'".to_string()
        )),
        verdict(&Evaluated::Text("abc".to_string()), "x")
    );
    assert_eq!(
        Err(RbacError::Evaluation("Invalid expression, only boolean results are supported 'x'".to_string())),
        verdict(&Evaluated::Tuple, "x")
    );
    assert_eq!(
        Err(RbacError::Evaluation("Invalid empty expression, only boolean results are supported ''".to_string())),
        verdict(&Evaluated::Empty, "")
    );
    assert_eq!(
        Err(RbacError::Evaluation(
            "Invalid expression, only boolean results are supported 'x' --- why".to_string()
        )),
        verdict(&Evaluated::Failed("why".to_string()), "x")
    );
}

#[test]
fn test_evaluate_kinds_of_values() {
    let properties = vec![
        Property { name: "name".to_string(), value: ValueWrapper::String("Midwest".to_string()) },
        Property { name: "half".to_string(), value: ValueWrapper::Float((0.5f64).to_bits()) },
        Property { name: "n".to_string(), value: ValueWrapper::Int(7) },
    ];
    assert_eq!(Ok(true), evaluate("name == \"Midwest\"", &properties));
    assert_eq!(Ok(false), evaluate("name == \"Northeast\"", &properties));
    assert_eq!(Ok(true), evaluate("half < 1 && half + half == 1.0", &properties));
    assert_eq!(Ok(true), evaluate("n * 2 == 14", &properties));
    assert_eq!(
        Err(RbacError::Evaluation(
            "Invalid string expression Midwest, only boolean results are supported 'name'".to_string()
        )),
        evaluate("name", &properties)
    );
    assert_eq!(
        Err(RbacError::Evaluation("Invalid float expression, only boolean results are supported 'half'".to_string())),
        evaluate("half", &properties)
    );
    assert!(evaluate("unknown", &properties).is_err());
    assert!(evaluate("n &&", &properties).is_err());
    assert!(evaluate("", &properties).is_err());
    // a name bound twice to values of different kinds cannot be bound
    let clash = vec![
        Property { name: "a".to_string(), value: ValueWrapper::Int(1) },
        Property { name: "a".to_string(), value: ValueWrapper::Bool(true) },
    ];
    assert!(evaluate("a", &clash).is_err());
}

#[test]
fn test_pattern_that_does_not_compile_is_an_error() {
    let args = vec![ValueWrapper::String("(".to_string()), ValueWrapper::String("(".to_string())];
    match call_builtin(Builtin::RegexFind, &args) {
        Err(RbacError::Evaluation(_)) => {},
        other => panic!("unexpected {:?}", other),
    }
    assert!(call_builtin(Builtin::RegexMatch, &args).is_err());
    assert!(evaluate("regex_find(\"(\", \"x\")", &Vec::new()).is_err());
    assert_eq!(Some(true), plexrbac::utils::text::try_regex_match("a+", "aaa"));
    assert_eq!(Some(false), plexrbac::utils::text::try_regex_find("b", "aaa"));
    assert_eq!(None, plexrbac::utils::text::try_regex_find("(", "aaa"));
}

#[test]
fn test_time() {
    let fmt = StrftimeItems::new("%Y-%m-%d %H:%M:%S");
    let dt = NaiveDate::from_ymd_opt(2019, 7, 5).unwrap().and_hms_opt(23, 56, 4).unwrap();
    assert_eq!(dt.format_with_items(fmt.clone()).to_string(), "2019-07-05 23:56:04");
    assert_eq!(NaiveDateTime::parse_from_str("2019-07-05 23:56:04", "%Y-%m-%d %H:%M:%S"), Ok(dt));
    assert_eq!(
        Ok(ValueWrapper::Int(dt.and_utc().timestamp())),
        call_builtin(Builtin::DatetimeEpochSecs, &ints(&[2019, 7, 5, 23, 56, 4]))
    );
}
