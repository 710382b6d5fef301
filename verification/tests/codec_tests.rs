use asset_cli::{read_db, write_db, Asset, Error};

fn asset(id: u64, name: &str, category: &str, vulnerabilities: u64, created_at: &str) -> Asset {
    Asset {
        id,
        name: name.to_string(),
        category: category.to_string(),
        vulnerabilities,
        created_at: created_at.to_string(),
    }
}

fn same_content(a: &Asset, b: &Asset) -> bool {
    a.id == b.id && a.name == b.name && a.category == b.category
        && a.vulnerabilities == b.vulnerabilities && a.created_at == b.created_at
}

#[test]
fn write_empty_collection() {
    assert_eq!(write_db(&Vec::new()), "[]");
}

#[test]
fn read_empty_collection() {
    let v = read_db("[]").unwrap();
    assert_eq!(v.len(), 0);
}

#[test]
fn write_one_asset_exact_format() {
    let v = vec![asset(7, "srv01", "hardware", 3, "2022-05-01T10:00:00+00:00")];
    assert_eq!(
        write_db(&v),
        "[{\"id\":7,\"name\":\"srv01\",\"category\":\"hardware\",\"vulnerabilities\":3,\"created_at\":\"2022-05-01T10:00:00+00:00\"}]"
    );
}

#[test]
fn read_one_asset_exact_fields() {
    let content = "[{\"id\":7,\"name\":\"srv01\",\"category\":\"hardware\",\"vulnerabilities\":3,\"created_at\":\"2022-05-01T10:00:00+00:00\"}]";
    let v = read_db(content).unwrap();
    assert_eq!(v.len(), 1);
    assert_eq!(v[0].id, 7);
    assert_eq!(v[0].name, "srv01");
    assert_eq!(v[0].category, "hardware");
    assert_eq!(v[0].vulnerabilities, 3);
    assert_eq!(v[0].created_at, "2022-05-01T10:00:00+00:00");
}

#[test]
fn round_trip_three_records() {
    let v = vec![
        asset(1, "alpha", "hardware", 1, "2022-01-01T00:00:00+00:00"),
        asset(2, "beta", "software", 14, "2022-02-02T00:00:00+00:00"),
        asset(9999998, "gamma", "hardware", 7, "2023-03-03T12:34:56.789+00:00"),
    ];
    let content = write_db(&v);
    let back = read_db(&content).unwrap();
    assert_eq!(back.len(), 3);
    for k in 0..3 {
        assert!(same_content(&v[k], &back[k]));
    }
    // Writing what was loaded reproduces the file byte for byte.
    assert_eq!(write_db(&back), content);
}

#[test]
fn round_trip_largest_numbers() {
    let v = vec![asset(
        9_999_999_999_999_999_999,
        "big",
        "software",
        9_999_999_999_999_999_999,
        "2022-01-01T00:00:00+00:00",
    )];
    let content = write_db(&v);
    let back = read_db(&content).unwrap();
    assert_eq!(back[0].id, 9_999_999_999_999_999_999);
    assert_eq!(back[0].vulnerabilities, 9_999_999_999_999_999_999);
}

#[test]
fn whitespace_in_empty_array_is_accepted() {
    assert_eq!(read_db("[ ]").unwrap().len(), 0);
    assert_eq!(read_db(" [] ").unwrap().len(), 0);
    assert_eq!(read_db("[]\n").unwrap().len(), 0);
    assert_eq!(read_db("[\n]").unwrap().len(), 0);
}

#[test]
fn pretty_printed_json_is_accepted() {
    let content = "[\n  {\n    \"id\": 7,\n    \"name\": \"srv01\",\n    \"category\": \"hardware\",\n    \"vulnerabilities\": 3,\n    \"created_at\": \"2022-05-01T10:00:00+00:00\"\n  },\n  { \"id\" : 8 , \"name\" : \"ws2\" , \"category\" : \"software\" , \"vulnerabilities\" : 1 , \"created_at\" : \"t\" }\n]\n";
    let v = read_db(content).unwrap();
    assert_eq!(v.len(), 2);
    assert_eq!(v[0].id, 7);
    assert_eq!(v[0].name, "srv01");
    assert_eq!(v[1].id, 8);
    assert_eq!(v[1].category, "software");
}

#[test]
fn whitespace_inside_a_number_fails() {
    let content = "[{\"id\":1 2,\"name\":\"a\",\"category\":\"hardware\",\"vulnerabilities\":3,\"created_at\":\"t\"}]";
    assert_eq!(read_db(content).unwrap_err(), Error::StorageParseError);
}

#[test]
fn loaded_whitespace_saves_canonically_and_reloads() {
    let content = "[ {\"id\": 5, \"name\": \"n5\", \"category\": \"hardware\", \"vulnerabilities\": 2, \"created_at\": \"t\"} ]";
    let v = read_db(content).unwrap();
    let canonical = write_db(&v);
    assert_eq!(
        canonical,
        "[{\"id\":5,\"name\":\"n5\",\"category\":\"hardware\",\"vulnerabilities\":2,\"created_at\":\"t\"}]"
    );
    let again = read_db(&canonical).unwrap();
    assert_eq!(again.len(), 1);
    assert!(same_content(&v[0], &again[0]));
}

#[test]
fn canonical_file_reloads_and_resaves_identically() {
    let content = "[{\"id\":12,\"name\":\"ws3\",\"category\":\"software\",\"vulnerabilities\":14,\"created_at\":\"2022-07-07T07:07:07+00:00\"},{\"id\":0,\"name\":\"r2\",\"category\":\"hardware\",\"vulnerabilities\":1,\"created_at\":\"2021-01-01T00:00:00+00:00\"}]";
    let loaded = read_db(content).unwrap();
    assert_eq!(write_db(&loaded), content);
}

#[test]
fn malformed_json_fails_with_parse_error() {
    let r = read_db("{\"id\":1}");
    assert_eq!(r.unwrap_err(), Error::StorageParseError);
}

#[test]
fn truncated_array_fails() {
    let r = read_db("[{\"id\":1,\"name\":\"x\"");
    assert_eq!(r.unwrap_err(), Error::StorageParseError);
}

#[test]
fn empty_content_fails() {
    assert_eq!(read_db("").unwrap_err(), Error::StorageParseError);
}

#[test]
fn trailing_garbage_fails() {
    let content = "[{\"id\":7,\"name\":\"a\",\"category\":\"hardware\",\"vulnerabilities\":3,\"created_at\":\"t\"}]x";
    assert_eq!(read_db(content).unwrap_err(), Error::StorageParseError);
}

#[test]
fn twenty_digit_number_fails() {
    let content = "[{\"id\":99999999999999999999,\"name\":\"a\",\"category\":\"hardware\",\"vulnerabilities\":3,\"created_at\":\"t\"}]";
    assert_eq!(read_db(content).unwrap_err(), Error::StorageParseError);
}

#[test]
fn leading_zero_number_fails() {
    let content = "[{\"id\":007,\"name\":\"a\",\"category\":\"hardware\",\"vulnerabilities\":3,\"created_at\":\"t\"}]";
    assert_eq!(read_db(content).unwrap_err(), Error::StorageParseError);
}

#[test]
fn zero_id_round_trips() {
    let v = vec![asset(0, "a", "software", 1, "t")];
    let content = write_db(&v);
    let back = read_db(&content).unwrap();
    assert_eq!(back[0].id, 0);
    assert_eq!(write_db(&back), content);
}

#[test]
fn escaped_string_fails() {
    let content = "[{\"id\":1,\"name\":\"a\\\"b\",\"category\":\"hardware\",\"vulnerabilities\":3,\"created_at\":\"t\"}]";
    assert_eq!(read_db(content).unwrap_err(), Error::StorageParseError);
}

#[test]
fn missing_field_fails() {
    let content = "[{\"id\":1,\"category\":\"hardware\",\"vulnerabilities\":3,\"created_at\":\"t\"}]";
    assert_eq!(read_db(content).unwrap_err(), Error::StorageParseError);
}
