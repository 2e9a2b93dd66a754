//! Tests for the schema-driven argument parser.

use wikidot_path::arguments::PageArguments;
use wikidot_path::schema::ArgumentSchema;
use wikidot_path::value::ArgumentValue;

fn schema() -> ArgumentSchema<'static> {
    ArgumentSchema {
        valid_keys: &[
            "edit",
            "comments",
            "noredirect",
            "norender",
            "offset",
            "tags",
            "title",
        ],
        solo_keys: &["edit", "comments", "noredirect", "norender"],
    }
}

fn check(input: &str, expected: &[(&str, ArgumentValue)]) {
    let actual = PageArguments::parse(input, schema());

    assert_eq!(
        actual.len(),
        expected.len(),
        "Actual parsed page options don't match expected",
    );
    for (key, value) in expected {
        let entry = actual.get(*key);
        match entry {
            Some((actual_value, _raw)) => assert_eq!(
                actual_value, value,
                "Actual parsed page options don't match expected",
            ),
            None => panic!("Actual parsed page options don't match expected"),
        }
    }
}

#[test]
fn test_options() {
    check("", &[]);
    check("offset/4", &[("offset", ArgumentValue::Integer(4))]);
    check("norender/true", &[("norender", ArgumentValue::Boolean(true))]);
    check("norender/1", &[("norender", ArgumentValue::Integer(1))]);
    check("norender", &[("norender", ArgumentValue::Null)]);
    check(
        "norender/t/noredirect",
        &[
            ("norender", ArgumentValue::Boolean(true)),
            ("noredirect", ArgumentValue::Null),
        ],
    );
    check(
        "norender/noredirect/t",
        &[
            ("norender", ArgumentValue::Null),
            ("noredirect", ArgumentValue::Boolean(true)),
        ],
    );
    check(
        "offset/4/norender/noredirect/",
        &[
            ("offset", ArgumentValue::Integer(4)),
            ("norender", ArgumentValue::Null),
            ("noredirect", ArgumentValue::Null),
        ],
    );
    check(
        "edit/title/Foo",
        &[("edit", ArgumentValue::Null), ("title", ArgumentValue::String("Foo"))],
    );
    check(
        "edit/T/tags/tale/title/My Tale",
        &[
            ("edit", ArgumentValue::Boolean(true)),
            ("tags", ArgumentValue::String("tale")),
            ("title", ArgumentValue::String("My Tale")),
        ],
    );

    check("/", &[]);
    check("/offset/2", &[("offset", ArgumentValue::Integer(2))]);
    check("/edit/true", &[("edit", ArgumentValue::Boolean(true))]);
}

#[test]
fn test_solo_key_disambiguation() {
    let schema = ArgumentSchema {
        valid_keys: &["edit", "norender"],
        solo_keys: &["edit", "norender"],
    };

    // A run of solo flags is recognised key by key, not swallowed as values.
    let args = PageArguments::parse("norender/edit", schema);
    assert_eq!(args.len(), 2);
    assert_eq!(args.get("norender").unwrap().0, ArgumentValue::Null);
    assert_eq!(args.get("edit").unwrap().0, ArgumentValue::Null);
}

#[test]
fn test_solo_key_trailing_value() {
    let schema = ArgumentSchema {
        valid_keys: &["edit", "norender"],
        solo_keys: &["edit", "norender"],
    };

    // The trailing value belongs to the reprocessed key.
    let args = PageArguments::parse("norender/edit/true", schema);
    assert_eq!(args.len(), 2);
    assert_eq!(args.get("norender").unwrap().0, ArgumentValue::Null);
    assert_eq!(args.get("edit").unwrap().0, ArgumentValue::Boolean(true));
}

#[test]
fn test_solo_key_raw_slot() {
    // The raw slot of a solo key stores the lookahead segment that was
    // peeked, not an empty string.
    let args = PageArguments::parse("norender/noredirect/t", schema());
    assert_eq!(args.get("norender").unwrap().1, "noredirect");
    assert_eq!(args.get("noredirect").unwrap().1, "t");
}

#[test]
fn test_case_insensitive_keys() {
    // Keys compare case-insensitively, and the last occurrence wins.
    let args = PageArguments::parse("NoRender/true", schema());
    assert_eq!(args.len(), 1);
    assert_eq!(args.get("norender").unwrap().0, ArgumentValue::Boolean(true));

    let schema = ArgumentSchema { valid_keys: &["offset"], solo_keys: &[] };
    let args = PageArguments::parse("offset/1/OFFSET/2", schema);
    assert_eq!(args.len(), 1);
    assert_eq!(args.get("offset").unwrap().0, ArgumentValue::Integer(2));
    assert_eq!(args.get("OfFsEt").unwrap().0, ArgumentValue::Integer(2));
}
