use constrained_chat::csv_loader::load_pemazyre_responses;

const HEADER: &str = "Category\tKind\tDescription\tVC Agent Message\tVC Agent Message - URLs\n";

#[test]
fn test_load_pemazyre() {
    let data = format!(
        "{}{}{}",
        HEADER,
        "samples\treactive\tHCP is asking about samples\tSamples info [https://docupdate.io/x1]\tSamples info https://example.com/s\n",
        "dosing\treactive\tHCP is asking about dosing\tDosing info [https://docupdate.io/x2]\tDosing info https://example.com/d\n",
    );
    let messages = load_pemazyre_responses(data.as_bytes()).unwrap();
    assert!(!messages.is_empty());
    println!("Loaded {} messages", messages.len());

    // Print first few for inspection
    for (i, msg) in messages.iter().take(3).enumerate() {
        println!("{}: {:?}", i, msg);
    }
}

#[test]
fn loader_fills_all_fields_trimmed() {
    let data = format!(
        "{}{}",
        HEADER, " samples \t reactive \t desc here \t mlr text \t real text \n"
    );
    let messages = load_pemazyre_responses(data.as_bytes()).unwrap();
    assert_eq!(messages.len(), 1);
    assert_eq!(messages[0].category, "samples");
    assert_eq!(messages[0].kind, "reactive");
    assert_eq!(messages[0].description, "desc here");
    assert_eq!(messages[0].mlr_message, "mlr text");
    assert_eq!(messages[0].message, "real text");
}

#[test]
fn loader_skips_placeholder_rows() {
    let data = format!(
        "{}{}{}{}",
        HEADER,
        "skipme\treactive\td\tm\tN/A\n",
        "blankme\treactive\td\tm\t   \n",
        "keepme\treactive\td\tm\treal message\n",
    );
    let messages = load_pemazyre_responses(data.as_bytes()).unwrap();
    assert_eq!(messages.len(), 1);
    assert_eq!(messages[0].category, "keepme");
}

#[test]
fn loader_removes_continuation_placeholder() {
    let data = format!(
        "{}{}",
        HEADER,
        "samples\treactive\td\tm {{conversation_continuer}}\tText {{conversation_continuer}} here\n"
    );
    let messages = load_pemazyre_responses(data.as_bytes()).unwrap();
    assert_eq!(messages[0].message, "Text  here");
    assert_eq!(messages[0].mlr_message, "m");
}

#[test]
fn loader_skips_short_rows() {
    let data = format!("{}{}{}", HEADER, "short\trow\n", "full\treactive\td\tm\treal\n");
    let messages = load_pemazyre_responses(data.as_bytes()).unwrap();
    assert_eq!(messages.len(), 1);
    assert_eq!(messages[0].category, "full");
}

#[test]
fn loader_errors_without_usable_rows() {
    assert!(load_pemazyre_responses(b"").is_err());
    assert!(load_pemazyre_responses(HEADER.as_bytes()).is_err());
    let only_na = format!("{}{}", HEADER, "x\tk\td\tm\tN/A\n");
    assert!(load_pemazyre_responses(only_na.as_bytes()).is_err());
}

#[test]
fn loader_errors_when_a_column_is_missing() {
    let data = "Category\tKind\tDescription\tVC Agent Message\nx\tk\td\tm\n";
    assert!(load_pemazyre_responses(data.as_bytes()).is_err());
}

#[test]
fn loader_finds_columns_by_header_position() {
    let reordered = "Kind\tCategory\tVC Agent Message - URLs\tVC Agent Message\tDescription\n\
                     reactive\tsamples\treal\tmlr\tdesc\n";
    let messages = load_pemazyre_responses(reordered.as_bytes()).unwrap();
    assert_eq!(messages[0].category, "samples");
    assert_eq!(messages[0].message, "real");
    assert_eq!(messages[0].mlr_message, "mlr");
    assert_eq!(messages[0].description, "desc");
}
