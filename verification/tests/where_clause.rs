//! Scenarios of the `--where` translation.

use mdvs::index::where_clause::translate_where_to_struct;

fn fields(names: &[&str]) -> Vec<String> {
    names.iter().map(|s| s.to_string()).collect()
}

fn xlate(clause: &str, children: &[&str]) -> String {
    translate_where_to_struct(
        clause,
        &fields(children),
        &Vec::<String>::new(),
        "",
        &Vec::<(String, String)>::new(),
    )
    .unwrap()
}

#[test]
fn backend_translate_where_prefixes_frontmatter_fields() {
    // bare frontmatter field gets data. prefix; keyword/literal untouched
    assert_eq!(xlate("draft = false", &["draft"]), "data.draft = false");
    // dotted leaf (first segment is the frontmatter field)
    assert_eq!(
        xlate("calibration.baseline.wavelength > 800", &["calibration"]),
        "data.calibration.baseline.wavelength > 800"
    );
    // genuine internal column (not a frontmatter field) left alone
    assert_eq!(xlate("file_id = 'x'", &["draft"]), "file_id = 'x'");
    // already data-qualified left alone; string literal untouched
    assert_eq!(
        xlate("data.tags = 'sci-fi' AND rating > 3", &["tags", "rating"]),
        "data.tags = 'sci-fi' AND data.rating > 3"
    );
}

#[test]
fn mod_translate_where_prefixes_frontmatter_fields() {
    // bare frontmatter field gets data. prefix; keyword/literal untouched
    assert_eq!(xlate("draft = false", &["draft"]), "data.draft = false");
    // dotted leaf (first segment is the frontmatter field)
    assert_eq!(
        xlate("calibration.baseline.wavelength > 800", &["calibration"]),
        "data.calibration.baseline.wavelength > 800"
    );
    // genuine internal column (not a frontmatter field) left alone
    assert_eq!(xlate("file_id = 'x'", &["draft"]), "file_id = 'x'");
    // already data-qualified left alone; string literal untouched
    assert_eq!(
        xlate("data.tags = 'sci-fi' AND rating > 3", &["tags", "rating"]),
        "data.tags = 'sci-fi' AND data.rating > 3"
    );
}

#[test]
fn backend_translate_where_collision_errors_without_aliasing() {
    // frontmatter field named like an internal column, no aliasing → error
    let err = translate_where_to_struct(
        "file_id = 'x'",
        &fields(&["file_id"]),
        &Vec::<String>::new(),
        "",
        &Vec::<(String, String)>::new(),
    )
    .unwrap_err();
    assert!(err.to_string().contains("ambiguous column 'file_id'"));
}

#[test]
fn mod_translate_where_collision_errors_without_aliasing() {
    // frontmatter field named like an internal column, no aliasing → error
    let err = translate_where_to_struct(
        "file_id = 'x'",
        &fields(&["file_id"]),
        &Vec::<String>::new(),
        "",
        &Vec::<(String, String)>::new(),
    )
    .unwrap_err();
    assert!(err.to_string().contains("ambiguous column 'file_id'"));
}

#[test]
fn backend_translate_where_collision_resolved_by_prefix() {
    // with internal_prefix set, bare name = frontmatter field; the prefixed
    // form addresses the internal column.
    let out = translate_where_to_struct(
        "file_id = 'x' AND _file_id = 'y'",
        &fields(&["file_id"]),
        &Vec::<String>::new(),
        "_",
        &Vec::<(String, String)>::new(),
    )
    .unwrap();
    assert_eq!(out, "data.file_id = 'x' AND file_id = 'y'");
}

// --- Translator: comparison operators ---

#[test]
fn mod_translate_where_collision_resolved_by_prefix() {
    // with internal_prefix set, bare name = frontmatter field; the prefixed
    // form addresses the internal column.
    let out = translate_where_to_struct(
        "file_id = 'x' AND _file_id = 'y'",
        &fields(&["file_id"]),
        &Vec::<String>::new(),
        "_",
        &Vec::<(String, String)>::new(),
    )
    .unwrap();
    assert_eq!(out, "data.file_id = 'x' AND file_id = 'y'");
}

// --- Translator: comparison operators ---

#[test]
fn backend_translate_where_eq() {
    assert_eq!(
        xlate("status = 'active'", &["status"]),
        "data.status = 'active'"
    );
}

#[test]
fn mod_translate_where_eq() {
    assert_eq!(
        xlate("status = 'active'", &["status"]),
        "data.status = 'active'"
    );
}

#[test]
fn backend_translate_where_not_equal_both_spellings() {
    assert_eq!(xlate("rating <> 5", &["rating"]), "data.rating <> 5");
    assert_eq!(xlate("rating != 5", &["rating"]), "data.rating != 5");
}

#[test]
fn mod_translate_where_not_equal_both_spellings() {
    assert_eq!(xlate("rating <> 5", &["rating"]), "data.rating <> 5");
    assert_eq!(xlate("rating != 5", &["rating"]), "data.rating != 5");
}

#[test]
fn backend_translate_where_lt_gt_le_ge() {
    assert_eq!(xlate("rating < 3", &["rating"]), "data.rating < 3");
    assert_eq!(xlate("rating > 3", &["rating"]), "data.rating > 3");
    assert_eq!(xlate("rating <= 3", &["rating"]), "data.rating <= 3");
    assert_eq!(xlate("rating >= 3", &["rating"]), "data.rating >= 3");
}

#[test]
fn mod_translate_where_lt_gt_le_ge() {
    assert_eq!(xlate("rating < 3", &["rating"]), "data.rating < 3");
    assert_eq!(xlate("rating > 3", &["rating"]), "data.rating > 3");
    assert_eq!(xlate("rating <= 3", &["rating"]), "data.rating <= 3");
    assert_eq!(xlate("rating >= 3", &["rating"]), "data.rating >= 3");
}

#[test]
fn backend_translate_where_in_list() {
    assert_eq!(
        xlate("rating IN (4, 5)", &["rating"]),
        "data.rating IN (4, 5)"
    );
}

#[test]
fn mod_translate_where_in_list() {
    assert_eq!(
        xlate("rating IN (4, 5)", &["rating"]),
        "data.rating IN (4, 5)"
    );
}

#[test]
fn backend_translate_where_in_string_list_literals_untouched() {
    // string literals — even ones that look like field names — are not rewritten
    assert_eq!(
        xlate("status IN ('active', 'rating')", &["status", "rating"]),
        "data.status IN ('active', 'rating')"
    );
}

#[test]
fn mod_translate_where_in_string_list_literals_untouched() {
    // string literals — even ones that look like field names — are not rewritten
    assert_eq!(
        xlate("status IN ('active', 'rating')", &["status", "rating"]),
        "data.status IN ('active', 'rating')"
    );
}

#[test]
fn backend_translate_where_between() {
    assert_eq!(
        xlate("rating BETWEEN 3 AND 5", &["rating"]),
        "data.rating BETWEEN 3 AND 5"
    );
}

#[test]
fn mod_translate_where_between() {
    assert_eq!(
        xlate("rating BETWEEN 3 AND 5", &["rating"]),
        "data.rating BETWEEN 3 AND 5"
    );
}

#[test]
fn backend_translate_where_like() {
    assert_eq!(
        xlate("title LIKE 'Rust%'", &["title"]),
        "data.title LIKE 'Rust%'"
    );
}

#[test]
fn mod_translate_where_like() {
    assert_eq!(
        xlate("title LIKE 'Rust%'", &["title"]),
        "data.title LIKE 'Rust%'"
    );
}

#[test]
fn backend_translate_where_is_null_and_not_null() {
    assert_eq!(xlate("note IS NULL", &["note"]), "data.note IS NULL");
    assert_eq!(
        xlate("note IS NOT NULL", &["note"]),
        "data.note IS NOT NULL"
    );
}

// --- Translator: keywords / functions / literals ---

#[test]
fn mod_translate_where_is_null_and_not_null() {
    assert_eq!(xlate("note IS NULL", &["note"]), "data.note IS NULL");
    assert_eq!(
        xlate("note IS NOT NULL", &["note"]),
        "data.note IS NOT NULL"
    );
}

// --- Translator: keywords / functions / literals ---

#[test]
fn backend_translate_where_keywords_case_insensitive() {
    assert_eq!(
        xlate("a > 1 and b < 2 Or c = 3", &["a", "b", "c"]),
        "data.a > 1 and data.b < 2 Or data.c = 3"
    );
}

#[test]
fn mod_translate_where_keywords_case_insensitive() {
    assert_eq!(
        xlate("a > 1 and b < 2 Or c = 3", &["a", "b", "c"]),
        "data.a > 1 and data.b < 2 Or data.c = 3"
    );
}

#[test]
fn backend_translate_where_boolean_literals_untouched() {
    assert_eq!(xlate("draft = true", &["draft"]), "data.draft = true");
    assert_eq!(xlate("draft = FALSE", &["draft"]), "data.draft = FALSE");
}

#[test]
fn mod_translate_where_boolean_literals_untouched() {
    assert_eq!(xlate("draft = true", &["draft"]), "data.draft = true");
    assert_eq!(xlate("draft = FALSE", &["draft"]), "data.draft = FALSE");
}

#[test]
fn backend_translate_where_numbers_untouched() {
    assert_eq!(
        xlate("wavelength = 850.5", &["wavelength"]),
        "data.wavelength = 850.5"
    );
}

#[test]
fn mod_translate_where_numbers_untouched() {
    assert_eq!(
        xlate("wavelength = 850.5", &["wavelength"]),
        "data.wavelength = 850.5"
    );
}

#[test]
fn backend_translate_where_date_literal() {
    assert_eq!(
        xlate("published >= date '2024-01-01'", &["published"]),
        "data.published >= date '2024-01-01'"
    );
}

#[test]
fn mod_translate_where_date_literal() {
    assert_eq!(
        xlate("published >= date '2024-01-01'", &["published"]),
        "data.published >= date '2024-01-01'"
    );
}

#[test]
fn backend_translate_where_date_as_field_name() {
    // A frontmatter field literally named `date` must be prefixed, while
    // the `date '...'` literal keyword on the right is left alone.
    assert_eq!(
        xlate("date >= date '2032-01-01'", &["date"]),
        "data.date >= date '2032-01-01'"
    );
}

#[test]
fn mod_translate_where_date_as_field_name() {
    // A frontmatter field literally named `date` must be prefixed, while
    // the `date '...'` literal keyword on the right is left alone.
    assert_eq!(
        xlate("date >= date '2032-01-01'", &["date"]),
        "data.date >= date '2032-01-01'"
    );
}

#[test]
fn backend_translate_where_timestamp_as_field_name() {
    assert_eq!(
        xlate(
            "timestamp < timestamp '2024-01-01T00:00:00Z'",
            &["timestamp"]
        ),
        "data.timestamp < timestamp '2024-01-01T00:00:00Z'"
    );
}

#[test]
fn mod_translate_where_timestamp_as_field_name() {
    assert_eq!(
        xlate(
            "timestamp < timestamp '2024-01-01T00:00:00Z'",
            &["timestamp"]
        ),
        "data.timestamp < timestamp '2024-01-01T00:00:00Z'"
    );
}

#[test]
fn backend_translate_where_timestamp_literal() {
    assert_eq!(
        xlate(
            "synced_at < timestamp '2024-01-01T00:00:00Z'",
            &["synced_at"]
        ),
        "data.synced_at < timestamp '2024-01-01T00:00:00Z'"
    );
}

#[test]
fn mod_translate_where_timestamp_literal() {
    assert_eq!(
        xlate(
            "synced_at < timestamp '2024-01-01T00:00:00Z'",
            &["synced_at"]
        ),
        "data.synced_at < timestamp '2024-01-01T00:00:00Z'"
    );
}

#[test]
fn backend_translate_where_array_has() {
    // array_has is a function (keyword) → untouched; its column arg → data.
    assert_eq!(
        xlate("array_has(tags, 'rust')", &["tags"]),
        "array_has(data.tags, 'rust')"
    );
}

#[test]
fn mod_translate_where_array_has() {
    // array_has is a function (keyword) → untouched; its column arg → data.
    assert_eq!(
        xlate("array_has(tags, 'rust')", &["tags"]),
        "array_has(data.tags, 'rust')"
    );
}

#[test]
fn backend_translate_where_scalar_functions_left_unprefixed() {
    // A bare identifier followed by `(` is a function name, not a column.
    assert_eq!(
        xlate("lower(status) = 'active'", &["status"]),
        "lower(data.status) = 'active'"
    );
    assert_eq!(
        xlate("length(title) > 10", &["title"]),
        "length(data.title) > 10"
    );
    assert_eq!(
        xlate("abs(drift_rate) < 1", &["drift_rate"]),
        "abs(data.drift_rate) < 1"
    );
    // function with whitespace before the paren
    assert_eq!(
        xlate("upper (status) = 'A'", &["status"]),
        "upper (data.status) = 'A'"
    );
}

#[test]
fn mod_translate_where_scalar_functions_left_unprefixed() {
    // A bare identifier followed by `(` is a function name, not a column.
    assert_eq!(
        xlate("lower(status) = 'active'", &["status"]),
        "lower(data.status) = 'active'"
    );
    assert_eq!(
        xlate("length(title) > 10", &["title"]),
        "length(data.title) > 10"
    );
    assert_eq!(
        xlate("abs(drift_rate) < 1", &["drift_rate"]),
        "abs(data.drift_rate) < 1"
    );
    // function with whitespace before the paren
    assert_eq!(
        xlate("upper (status) = 'A'", &["status"]),
        "upper (data.status) = 'A'"
    );
}

#[test]
fn backend_translate_where_field_not_followed_by_paren_is_prefixed() {
    // a field literally named like a function, used as a column, IS prefixed
    assert_eq!(xlate("lower > 5", &["lower"]), "data.lower > 5");
}

#[test]
fn mod_translate_where_field_not_followed_by_paren_is_prefixed() {
    // a field literally named like a function, used as a column, IS prefixed
    assert_eq!(xlate("lower > 5", &["lower"]), "data.lower > 5");
}

#[test]
fn backend_translate_where_arithmetic_on_column() {
    assert_eq!(
        xlate("sample_count + 1 > 5", &["sample_count"]),
        "data.sample_count + 1 > 5"
    );
}

#[test]
fn mod_translate_where_arithmetic_on_column() {
    assert_eq!(
        xlate("sample_count + 1 > 5", &["sample_count"]),
        "data.sample_count + 1 > 5"
    );
}

#[test]
fn backend_translate_where_string_literal_with_field_like_token() {
    // a literal containing a token that matches a field name is left intact
    assert_eq!(
        xlate("title = 'draft status'", &["title", "draft", "status"]),
        "data.title = 'draft status'"
    );
}

#[test]
fn mod_translate_where_string_literal_with_field_like_token() {
    // a literal containing a token that matches a field name is left intact
    assert_eq!(
        xlate("title = 'draft status'", &["title", "draft", "status"]),
        "data.title = 'draft status'"
    );
}

#[test]
fn backend_translate_where_escaped_quote_in_literal() {
    assert_eq!(
        xlate("author = 'O''Brien'", &["author"]),
        "data.author = 'O''Brien'"
    );
}

#[test]
fn mod_translate_where_escaped_quote_in_literal() {
    assert_eq!(
        xlate("author = 'O''Brien'", &["author"]),
        "data.author = 'O''Brien'"
    );
}

#[test]
fn backend_translate_where_literal_with_dotted_token() {
    // a dotted token inside a literal must not be prefixed
    assert_eq!(xlate("path = 'a.b.c'", &["path"]), "data.path = 'a.b.c'");
}

// --- Translator: struct paths & internal columns ---

#[test]
fn mod_translate_where_literal_with_dotted_token() {
    // a dotted token inside a literal must not be prefixed
    assert_eq!(xlate("path = 'a.b.c'", &["path"]), "data.path = 'a.b.c'");
}

// --- Translator: struct paths & internal columns ---

#[test]
fn backend_translate_where_all_internal_columns_left_alone() {
    for col in [
        "chunk_id",
        "file_id",
        "chunk_index",
        "start_line",
        "end_line",
        "chunk_text",
        "embedding",
        "filepath",
        "content_hash",
        "built_at",
    ] {
        // not a frontmatter field → internal column, left as-is
        let clause = format!("{col} = 1");
        assert_eq!(
            xlate(&clause, &["other"]),
            clause,
            "{col} should be left alone"
        );
    }
}

#[test]
fn mod_translate_where_all_internal_columns_left_alone() {
    for col in [
        "chunk_id",
        "file_id",
        "chunk_index",
        "start_line",
        "end_line",
        "chunk_text",
        "embedding",
        "filepath",
        "content_hash",
        "built_at",
    ] {
        // not a frontmatter field → internal column, left as-is
        let clause = format!("{col} = 1");
        assert_eq!(
            xlate(&clause, &["other"]),
            clause,
            "{col} should be left alone"
        );
    }
}

#[test]
fn backend_translate_where_filepath_filter() {
    assert_eq!(
        xlate("filepath LIKE 'blog/%'", &["title"]),
        "filepath LIKE 'blog/%'"
    );
}

#[test]
fn mod_translate_where_filepath_filter() {
    assert_eq!(
        xlate("filepath LIKE 'blog/%'", &["title"]),
        "filepath LIKE 'blog/%'"
    );
}

#[test]
fn backend_translate_where_deeply_nested_dotted() {
    assert_eq!(xlate("a.b.c.d.e = 1", &["a"]), "data.a.b.c.d.e = 1");
}

#[test]
fn mod_translate_where_deeply_nested_dotted() {
    assert_eq!(xlate("a.b.c.d.e = 1", &["a"]), "data.a.b.c.d.e = 1");
}

#[test]
fn backend_translate_where_already_data_qualified_untouched() {
    // first segment `data` is reserved → left as-is (idempotent)
    assert_eq!(xlate("data.title = 'x'", &["title"]), "data.title = 'x'");
}

#[test]
fn mod_translate_where_already_data_qualified_untouched() {
    // first segment `data` is reserved → left as-is (idempotent)
    assert_eq!(xlate("data.title = 'x'", &["title"]), "data.title = 'x'");
}

#[test]
fn backend_translate_where_unknown_field_treated_as_frontmatter() {
    // a name that's neither reserved nor a known field is assumed frontmatter
    assert_eq!(xlate("typo = 1", &["title"]), "data.typo = 1");
}

#[test]
fn mod_translate_where_unknown_field_treated_as_frontmatter() {
    // a name that's neither reserved nor a known field is assumed frontmatter
    assert_eq!(xlate("typo = 1", &["title"]), "data.typo = 1");
}

#[test]
fn backend_translate_where_field_with_digits_and_underscores() {
    assert_eq!(
        xlate("sample_count_2 > 10", &["sample_count_2"]),
        "data.sample_count_2 > 10"
    );
}

#[test]
fn mod_translate_where_field_with_digits_and_underscores() {
    assert_eq!(
        xlate("sample_count_2 > 10", &["sample_count_2"]),
        "data.sample_count_2 > 10"
    );
}

#[test]
fn backend_translate_where_none_when_no_clause_is_handled_by_caller() {
    // empty clause translates to empty (caller passes None for absent --where)
    assert_eq!(xlate("", &["title"]), "");
}

// --- Translator: collisions & aliasing ---

#[test]
fn mod_translate_where_none_when_no_clause_is_handled_by_caller() {
    // empty clause translates to empty (caller passes None for absent --where)
    assert_eq!(xlate("", &["title"]), "");
}

// --- Translator: collisions & aliasing ---

#[test]
fn backend_translate_where_collision_resolved_by_alias() {
    let mut aliases = Vec::<(String, String)>::new();
    aliases.push(("file_id".to_string(), "fid".to_string()));
    let out = translate_where_to_struct(
        "file_id = 'x' AND fid = 'y'",
        &fields(&["file_id"]),
        &Vec::<String>::new(),
        "",
        &aliases,
    )
    .unwrap();
    // bare `file_id` = frontmatter field → data.file_id; alias `fid` → internal file_id
    assert_eq!(out, "data.file_id = 'x' AND file_id = 'y'");
}

#[test]
fn mod_translate_where_collision_resolved_by_alias() {
    let mut aliases = Vec::<(String, String)>::new();
    aliases.push(("file_id".to_string(), "fid".to_string()));
    let out = translate_where_to_struct(
        "file_id = 'x' AND fid = 'y'",
        &fields(&["file_id"]),
        &Vec::<String>::new(),
        "",
        &aliases,
    )
    .unwrap();
    // bare `file_id` = frontmatter field → data.file_id; alias `fid` → internal file_id
    assert_eq!(out, "data.file_id = 'x' AND file_id = 'y'");
}

#[test]
fn backend_translate_where_no_collision_when_field_not_reserved() {
    // a frontmatter field that doesn't shadow an internal column never collides
    assert_eq!(xlate("author = 'x'", &["author"]), "data.author = 'x'");
}

#[test]
fn mod_translate_where_no_collision_when_field_not_reserved() {
    // a frontmatter field that doesn't shadow an internal column never collides
    assert_eq!(xlate("author = 'x'", &["author"]), "data.author = 'x'");
}

#[test]
fn backend_translate_where_array_float_field_is_rejected() {
    // Filtering on an Array(Float) field would panic inside Lance — we
    // refuse it up front with a clear message instead.
    let float_lists: Vec<String> =
        ["measurement_values".to_string()].into_iter().collect();
    for clause in [
        "measurement_values IS NOT NULL",
        "array_has(measurement_values, 0.5)",
        "data.measurement_values IS NULL",
    ] {
        let err = translate_where_to_struct(
            clause,
            &fields(&["measurement_values"]),
            &float_lists,
            "",
            &Vec::<(String, String)>::new(),
        )
        .unwrap_err();
        assert!(
            err.to_string()
                .contains("Array(Float) field 'measurement_values'"),
            "clause `{clause}` should produce the Array(Float) error, got: {err}"
        );
    }
}

#[test]
fn mod_translate_where_array_float_field_is_rejected() {
    // Filtering on an Array(Float) field would panic inside Lance — we
    // refuse it up front with a clear message instead.
    let float_lists: Vec<String> =
        ["measurement_values".to_string()].into_iter().collect();
    for clause in [
        "measurement_values IS NOT NULL",
        "array_has(measurement_values, 0.5)",
        "data.measurement_values IS NULL",
    ] {
        let err = translate_where_to_struct(
            clause,
            &fields(&["measurement_values"]),
            &float_lists,
            "",
            &Vec::<(String, String)>::new(),
        )
        .unwrap_err();
        assert!(
            err.to_string()
                .contains("Array(Float) field 'measurement_values'"),
            "clause `{clause}` should produce the Array(Float) error, got: {err}"
        );
    }
}

#[test]
fn backend_translate_where_collision_only_on_matching_reserved_name() {
    // `filepath` frontmatter field collides; `title` does not — mixed clause
    let err = translate_where_to_struct(
        "filepath = 'a' AND title = 'b'",
        &fields(&["filepath", "title"]),
        &Vec::<String>::new(),
        "",
        &Vec::<(String, String)>::new(),
    )
    .unwrap_err();
    assert!(err.to_string().contains("ambiguous column 'filepath'"));
}

#[test]
fn mod_translate_where_collision_only_on_matching_reserved_name() {
    // `filepath` frontmatter field collides; `title` does not — mixed clause
    let err = translate_where_to_struct(
        "filepath = 'a' AND title = 'b'",
        &fields(&["filepath", "title"]),
        &Vec::<String>::new(),
        "",
        &Vec::<(String, String)>::new(),
    )
    .unwrap_err();
    assert!(err.to_string().contains("ambiguous column 'filepath'"));
}

fn xlate_with(
    clause: &str,
    children: &[&str],
    floats: &[&str],
    prefix: &str,
    aliases: &[(&str, &str)],
) -> Result<String, String> {
    let aliases: Vec<(String, String)> =
        aliases.iter().map(|(c, a)| (c.to_string(), a.to_string())).collect();
    translate_where_to_struct(clause, &fields(children), &fields(floats), prefix, &aliases)
}

#[test]
fn unclosed_literal_ends_at_last_doubled_quote() {
    // `'ab''` has no closing quote: the literal is `'ab'`, the last quote is
    // left outside it, and the name after it is resolved.
    assert_eq!(xlate("a = 'ab'' b", &["a"]), "data.a = 'ab'' data.b");
    assert_eq!(xlate("a = 'x b", &["a"]), "data.a = 'data.x data.b");
}

#[test]
fn literal_word_folds_long_s() {
    // `ſ` folds to `s`, so `timeſtamp '...'` is one literal.
    assert_eq!(
        xlate("t < timeſtamp '2024'", &["t"]),
        "data.t < timeſtamp '2024'"
    );
    // without the word boundary `xdate` is an identifier of its own
    assert_eq!(xlate("xdate '2024'", &[]), "data.xdate '2024'");
}

#[test]
fn prefix_names_the_column_only() {
    assert_eq!(
        xlate_with("_file_id.x = 1", &[], &[], "_", &[]).unwrap(),
        "file_id = 1"
    );
    // a prefixed name that is not a column is a frontmatter field
    assert_eq!(
        xlate_with("_title = 1", &[], &[], "_", &[]).unwrap(),
        "data._title = 1"
    );
}

#[test]
fn alias_comes_before_everything_but_keywords_and_calls() {
    assert_eq!(
        xlate_with("fid = 1 AND fid(2)", &["fid"], &["fid"], "", &[("file_id", "fid")]).unwrap(),
        "file_id = 1 AND fid(2)"
    );
}

#[test]
fn float_field_refused_after_data_qualifier() {
    let err = xlate_with("data.v.x = 1", &["v"], &["v"], "", &[]).unwrap_err();
    assert!(err.contains("Array(Float) field 'v'"), "{err}");
    // `data` alone names no field
    assert_eq!(xlate_with("data = 1", &[], &["v"], "", &[]).unwrap(), "data = 1");
}

#[test]
fn first_refusal_wins() {
    let err = xlate_with("file_id = 1 AND v = 2", &["file_id"], &["v"], "", &[]).unwrap_err();
    assert!(err.starts_with("ambiguous column 'file_id' in --where"), "{err}");
    assert!(err.ends_with("[search.aliases].file_id = \"<alias>\""), "{err}");
}

#[test]
fn translating_a_translated_clause_gives_it_back() {
    let children = ["draft", "count", "cal", "title"];
    for clause in [
        "draft = true AND count > 1",
        "lower(cal.unit) = upper(title)",
        "1date > 2 OR filepath IS NOT NULL",
        "data.title IS NULL AND chunk_id > 3",
        "count IN (1, 2) AND NOT draft",
    ] {
        let once = xlate(clause, &children);
        assert_eq!(xlate(&once, &children), once, "clause: {clause}");
    }
    assert_eq!(
        xlate("draft = true AND count > 1", &children),
        "data.draft = true AND data.count > 1"
    );
}
