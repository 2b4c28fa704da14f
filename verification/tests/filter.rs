use thoughts::database::{Entry, Identifier};
use thoughts::date::Date;
use thoughts::evaluate::{
    day_passes, entry_satisfies, entry_satisfies_all, evaluate, identifier_is, insert_in_order,
};
use thoughts::search::{operand_fits, SearchToken, Token};

fn entry(id: i32, title: &str, content: &str, favorite: bool, created_at: u64) -> Entry {
    Entry {
        identifier: Identifier::Row(id),
        title: title.to_string(),
        content: content.to_string(),
        favorite,
        tags: Vec::new(),
        created_at,
        modified_at: created_at,
    }
}

fn text(s: &str) -> SearchToken {
    SearchToken::String(s.to_string())
}

fn pair(op: SearchToken, operand: SearchToken) -> (Token, Token) {
    (Token { content: op }, Token { content: operand })
}

fn ids(entries: &[Entry]) -> Vec<i32> {
    entries
        .iter()
        .map(|e| match e.identifier {
            Identifier::Row(n) => n,
            Identifier::File(_) => panic!("row identifiers only"),
        })
        .collect()
}

const JUNE_7: Date = Date { year: 2023, month: 6, day: 7 };

#[test]
fn days_against_date_keywords() {
    let june_6 = Date { year: 2023, month: 6, day: 6 };
    let june_8 = Date { year: 2023, month: 6, day: 8 };
    assert!(day_passes(&SearchToken::Before, Some(june_6), &JUNE_7));
    assert!(!day_passes(&SearchToken::Before, Some(JUNE_7), &JUNE_7));
    assert!(!day_passes(&SearchToken::Before, Some(june_8), &JUNE_7));
    assert!(day_passes(&SearchToken::During, Some(JUNE_7), &JUNE_7));
    assert!(!day_passes(&SearchToken::During, Some(june_6), &JUNE_7));
    assert!(day_passes(&SearchToken::After, Some(june_8), &JUNE_7));
    assert!(!day_passes(&SearchToken::After, Some(JUNE_7), &JUNE_7));
    assert!(!day_passes(&SearchToken::Before, None, &JUNE_7));
    assert!(!day_passes(&SearchToken::During, None, &JUNE_7));
    assert!(!day_passes(&SearchToken::After, None, &JUNE_7));
    assert!(!day_passes(&SearchToken::Favorite, Some(JUNE_7), &JUNE_7));
}

#[test]
fn identifiers_against_id_text() {
    assert!(identifier_is(&Identifier::Row(12), "12"));
    assert!(identifier_is(&Identifier::Row(-3), "-3"));
    assert!(identifier_is(&Identifier::Row(0), "-0"));
    assert!(!identifier_is(&Identifier::Row(12), "13"));
    assert!(!identifier_is(&Identifier::Row(12), "twelve"));
    assert!(!identifier_is(&Identifier::Row(12), "12 "));
    assert!(!identifier_is(&Identifier::Row(0), ""));
    assert!(!identifier_is(&Identifier::Row(0), "4294967296"));
    assert!(identifier_is(&Identifier::File("/n/a.md".to_string()), "/n/a.md"));
    assert!(!identifier_is(&Identifier::File("/n/a.md".to_string()), "/N/A.md"));
    assert!(!identifier_is(&Identifier::File("/n/a.md".to_string()), "a.md"));
}

#[test]
fn one_entry_against_one_predicate() {
    let e = entry(7, "Stra\u{df}e nach \u{c9}vian", "Der LANGE Weg", true, 1_686_096_000);
    assert!(entry_satisfies(&e, &SearchToken::Favorite, &SearchToken::Boolean(true)));
    assert!(!entry_satisfies(&e, &SearchToken::Favorite, &SearchToken::Boolean(false)));
    assert!(entry_satisfies(&e, &SearchToken::Contains, &text("lange weg")));
    assert!(!entry_satisfies(&e, &SearchToken::Contains, &text("stra\u{df}e")));
    assert!(entry_satisfies(&e, &SearchToken::InTitle, &text("\u{e9}VIAN")));
    assert!(entry_satisfies(&e, &SearchToken::InTitle, &text("")));
    assert!(entry_satisfies(&e, &SearchToken::StartsWith, &text("STRA\u{df}E")));
    assert!(!entry_satisfies(&e, &SearchToken::StartsWith, &text("nach")));
    assert!(entry_satisfies(&e, &SearchToken::During, &SearchToken::Date(JUNE_7)));
    assert!(!entry_satisfies(&e, &SearchToken::Before, &SearchToken::Date(JUNE_7)));
    assert!(!entry_satisfies(&e, &SearchToken::After, &SearchToken::Date(JUNE_7)));
    assert!(entry_satisfies(&e, &SearchToken::ID, &text("7")));
    assert!(!entry_satisfies(&e, &SearchToken::ID, &SearchToken::Boolean(true)));
}

#[test]
fn ill_formed_predicates_pass_nothing() {
    let e = entry(7, "true", "true", true, 0);
    assert!(!entry_satisfies(&e, &SearchToken::Favorite, &text("true")));
    assert!(!entry_satisfies(&e, &SearchToken::Contains, &SearchToken::Boolean(true)));
    assert!(!entry_satisfies(&e, &SearchToken::InTitle, &SearchToken::InTitle));
    assert!(!entry_satisfies(&e, &SearchToken::Before, &text("06-07-2023")));
    assert!(!entry_satisfies(&e, &text("true"), &text("true")));
    assert!(!entry_satisfies(&e, &SearchToken::Boolean(true), &SearchToken::Boolean(true)));
    assert!(!entry_satisfies(&e, &SearchToken::Date(JUNE_7), &SearchToken::Date(JUNE_7)));
}

#[test]
fn predicates_are_a_conjunction() {
    let e = entry(1, "shopping list", "milk", true, 0);
    let both = vec![
        pair(SearchToken::InTitle, text("shop")),
        pair(SearchToken::Contains, text("milk")),
        pair(SearchToken::Favorite, SearchToken::Boolean(true)),
    ];
    assert!(entry_satisfies_all(&e, &both));
    let one_fails = vec![
        pair(SearchToken::InTitle, text("shop")),
        pair(SearchToken::Contains, text("eggs")),
    ];
    assert!(!entry_satisfies_all(&e, &one_fails));
    assert!(entry_satisfies_all(&e, &Vec::new()));
}

#[test]
fn evaluate_filters_and_sorts() {
    let entries = vec![
        entry(1, "b", "", true, 30),
        entry(2, "a", "", false, 10),
        entry(3, "c", "", true, 20),
        entry(4, "d", "", true, 20),
        entry(5, "e", "", true, 5),
    ];
    let favorites = vec![pair(SearchToken::Favorite, SearchToken::Boolean(true))];
    assert_eq!(ids(&evaluate(entries.clone(), &favorites)), vec![5, 3, 4, 1]);
    assert_eq!(ids(&evaluate(entries.clone(), &Vec::new())), vec![5, 2, 3, 4, 1]);
    let nothing = vec![pair(SearchToken::InTitle, SearchToken::InTitle)];
    assert_eq!(ids(&evaluate(entries, &nothing)), Vec::<i32>::new());
}

#[test]
fn insertion_goes_in_front_of_equal_times() {
    let mut sorted = vec![entry(1, "", "", false, 10), entry(2, "", "", false, 20)];
    insert_in_order(&mut sorted, entry(3, "", "", false, 20));
    insert_in_order(&mut sorted, entry(4, "", "", false, 5));
    insert_in_order(&mut sorted, entry(5, "", "", false, 30));
    insert_in_order(&mut sorted, entry(6, "", "", false, 10));
    assert_eq!(ids(&sorted), vec![4, 6, 1, 3, 2, 5]);
}

#[test]
fn operands_fit_their_keywords() {
    let date = SearchToken::Date(JUNE_7);
    assert!(operand_fits(&SearchToken::Favorite, &SearchToken::Boolean(false)));
    assert!(!operand_fits(&SearchToken::Favorite, &text("x")));
    for op in [SearchToken::Before, SearchToken::During, SearchToken::After] {
        assert!(operand_fits(&op, &date));
        assert!(!operand_fits(&op, &text("x")));
    }
    assert!(operand_fits(&SearchToken::Contains, &text("x")));
    assert!(!operand_fits(&SearchToken::Contains, &date));
    assert!(operand_fits(&SearchToken::StartsWith, &date));
    assert!(operand_fits(&SearchToken::ID, &SearchToken::Favorite));
    assert!(!operand_fits(&SearchToken::InTitle, &text("x")));
    assert!(!operand_fits(&text("x"), &text("x")));
}
