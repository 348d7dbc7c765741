use dao_admin::sorted_map::SortedMap;
use dao_admin::text::{contains_text, decimal, join, same_text, text_precedes};
use dao_admin::types::{
    ContactSource, ContactStatus, CreateContactRequest, CreateDealRequest,
    CreateTransactionRequest, DealStage, PaginationParams, TransactionCategory, TransactionType,
    UpdateContactRequest, UpdateDealRequest,
};
use dao_admin::validation::{
    check_email, validate_create_contact, validate_create_deal, validate_create_transaction,
    validate_email, validate_optional_string_length, validate_string_length,
    validate_update_contact, validate_update_deal,
};
use dao_admin::Principal;

#[test]
fn decimal_numerals() {
    assert_eq!(decimal(0), "0");
    assert_eq!(decimal(9), "9");
    assert_eq!(decimal(10), "10");
    assert_eq!(decimal(1_000_000), "1000000");
    assert_eq!(decimal(u64::MAX), "18446744073709551615");
}

#[test]
fn texts_are_ordered_by_their_bytes() {
    assert!(text_precedes("", "a"));
    assert!(!text_precedes("a", ""));
    assert!(!text_precedes("a", "a"));
    assert!(text_precedes("a", "ab"));
    assert!(text_precedes("Z", "a"));
    assert!(text_precedes("abc", "abd"));
    assert!(text_precedes("z", "é"));
    assert!(text_precedes("é", "日"));
    for (a, b) in [("x", "y"), ("", ""), ("é", "e"), ("ab", "a")] {
        assert_eq!(text_precedes(a, b), a < b);
        assert_eq!(same_text(a, b), a == b);
    }
    assert_eq!(join("ab", "cd"), "abcd");
}

#[test]
fn search_finds_runs_of_bytes() {
    assert!(contains_text("hello", ""));
    assert!(contains_text("", ""));
    assert!(!contains_text("", "a"));
    assert!(contains_text("hello", "hello"));
    assert!(contains_text("hello", "llo"));
    assert!(contains_text("hello", "h"));
    assert!(!contains_text("hello", "hellox"));
    assert!(!contains_text("hello", "lol"));
    assert!(contains_text("aab", "ab"));
    assert!(contains_text("naïve", "ïv"));
}

#[test]
fn sorted_map_keeps_its_keys_in_order() {
    let mut m: SortedMap<String, u64> = SortedMap::new();
    assert_eq!(m.len(), 0);
    assert_eq!(m.insert("m".to_string(), 1), None);
    assert_eq!(m.insert("a".to_string(), 2), None);
    assert_eq!(m.insert("z".to_string(), 3), None);
    assert_eq!(m.insert("m".to_string(), 4), Some(1));
    assert_eq!(m.len(), 3);
    assert_eq!((0..3).map(|i| m.key_at(i).clone()).collect::<Vec<String>>(), vec!["a", "m", "z"]);
    assert_eq!((0..3).map(|i| *m.value_at(i)).collect::<Vec<u64>>(), vec![2, 4, 3]);
    assert_eq!(m.get(&"m".to_string()), Some(&4));
    assert_eq!(m.get(&"b".to_string()), None);
    assert!(m.contains_key(&"z".to_string()));
    assert_eq!(m.remove(&"a".to_string()), Some(2));
    assert_eq!(m.remove(&"a".to_string()), None);
    assert_eq!(m.len(), 2);
    assert_eq!(m.key_at(0), "m");
}

#[test]
fn identities_keep_their_bytes_and_their_order() {
    let samples: Vec<Vec<u8>> = vec![
        vec![],
        vec![0],
        vec![4],
        vec![255],
        vec![0, 0],
        vec![1, 2, 3, 4, 5, 6, 7, 8],
        vec![1, 2, 3, 4, 5, 6, 7, 8, 9],
        vec![1, 2, 3, 4, 5, 6, 7, 9, 0],
        (0..29).collect(),
        (1..30).collect(),
        vec![255; 29],
        vec![0; 29],
    ];
    for bytes in samples.iter() {
        let p = Principal::from_slice(bytes);
        assert_eq!(&p.to_vec(), bytes);
        assert_eq!(p.len(), bytes.len());
        assert_eq!(p.byte_sum(), bytes.iter().map(|b| *b as u64).sum::<u64>());
        for (i, b) in bytes.iter().enumerate() {
            assert_eq!(p.byte(i), *b);
        }
        assert_eq!(Principal::try_from_slice(bytes), Some(p));
    }
    assert_eq!(Principal::try_from_slice(&[0; 30]), None);
    for a in samples.iter() {
        for b in samples.iter() {
            let (x, y) = (Principal::from_slice(a), Principal::from_slice(b));
            let (cx, cy) = (candid::Principal::from_slice(a), candid::Principal::from_slice(b));
            assert_eq!(x == y, a == b);
            assert_eq!(x.precedes(&y), cx < cy);
            assert_eq!(x < y, cx < cy);
        }
    }
    assert_eq!(Principal::anonymous().to_vec(), candid::Principal::anonymous().as_slice().to_vec());
    assert_eq!(
        Principal::management_canister().to_vec(),
        candid::Principal::management_canister().as_slice().to_vec()
    );
}

#[test]
fn variants_have_their_names() {
    assert_eq!(ContactSource::Signup.name(), "Signup");
    assert_eq!(ContactSource::Other.name(), format!("{:?}", ContactSource::Other));
    assert_eq!(ContactStatus::Churned.name(), format!("{:?}", ContactStatus::Churned));
    assert_eq!(DealStage::ClosedWon.name(), format!("{:?}", DealStage::ClosedWon));
    assert_eq!(ContactSource::default(), ContactSource::Signup);
    assert_eq!(ContactStatus::default(), ContactStatus::Active);
    assert_eq!(DealStage::default(), DealStage::Lead);
    assert_eq!(TransactionCategory::default(), TransactionCategory::Other);
    let p = PaginationParams::default();
    assert_eq!((p.offset, p.limit), (Some(0), Some(50)));
}

#[test]
fn email_verdicts_in_words() {
    assert_eq!(validate_email("").unwrap_err(), "Email is required");
    let long = format!("{}@example.com", "a".repeat(243));
    assert_eq!(long.len(), 255);
    assert_eq!(validate_email(&long).unwrap_err(), "Email must be at most 254 characters");
    let fits = format!("{}@example.com", "a".repeat(242));
    assert!(validate_email(&fits).is_ok());
    assert_eq!(validate_email("no at sign").unwrap_err(), "Invalid email format");
    assert_eq!(validate_email("a@b.c").unwrap_err(), "Invalid email format");
    assert_eq!(validate_email("a@b.c0").unwrap_err(), "Invalid email format");
    assert!(validate_email("A_b%c+d-e.f@Sub-domain.Example.ORG").is_ok());
    assert!(check_email("anything", true).is_ok());
    assert_eq!(check_email("a@b.co", false).unwrap_err(), "Invalid email format");
    assert_eq!(check_email("", true).unwrap_err(), "Email is required");
    assert_eq!(check_email(&long, true).unwrap_err(), "Email must be at most 254 characters");
}

#[test]
fn length_verdicts_in_words() {
    assert_eq!(
        validate_string_length("A", "Name", Some(2), 10).unwrap_err(),
        "Name must be at least 2 characters"
    );
    assert_eq!(
        validate_string_length("ABCDEFGHIJK", "Name", Some(2), 10).unwrap_err(),
        "Name must be at most 10 characters"
    );
    assert_eq!(
        validate_string_length("", "Deal name", Some(3), 200).unwrap_err(),
        "Deal name must be at least 3 characters"
    );
    assert!(validate_string_length("", "Notes", None, 0).is_ok());
    assert!(validate_string_length("日本語", "Name", Some(3), 3).is_ok());
    assert!(validate_string_length("日本語", "Name", Some(4), 9).is_err());
    assert!(validate_optional_string_length(&None, "Name", Some(2), 3).is_ok());
    assert_eq!(
        validate_optional_string_length(&Some("abcd".to_string()), "Company", None, 3).unwrap_err(),
        "Company must be at most 3 characters"
    );
}

#[test]
fn deal_verdicts_in_words() {
    let mut request = CreateDealRequest {
        contact_id: 1,
        name: "Big".to_string(),
        value: Some(1_000_000_000),
        notes: None,
        expected_close_date: None,
    };
    assert!(validate_create_deal(&request).is_ok());
    request.value = Some(1_000_000_001);
    assert_eq!(validate_create_deal(&request).unwrap_err(), "Deal value cannot exceed $10000000");
    request.name = "AB".to_string();
    assert_eq!(validate_create_deal(&request).unwrap_err(), "Deal name must be at least 3 characters");
    let mut update = UpdateDealRequest {
        id: 1,
        name: None,
        value: Some(u64::MAX),
        stage: None,
        notes: Some("x".repeat(5001)),
        expected_close_date: None,
    };
    assert_eq!(validate_update_deal(&update).unwrap_err(), "Deal value cannot exceed $10000000");
    update.value = None;
    assert_eq!(validate_update_deal(&update).unwrap_err(), "Notes must be at most 5000 characters");
    update.notes = Some("x".repeat(5000));
    assert!(validate_update_deal(&update).is_ok());
    update.name = Some("ab".to_string());
    assert_eq!(validate_update_deal(&update).unwrap_err(), "Deal name must be at least 3 characters");
}

#[test]
fn transaction_verdicts_in_words() {
    let base = CreateTransactionRequest {
        transaction_type: TransactionType::Income,
        category: TransactionCategory::Other,
        amount: 100_000_000,
        currency: Some("EUR".to_string()),
        description: "d".to_string(),
        reference: Some("r".repeat(200)),
        date: None,
    };
    assert!(validate_create_transaction(&base).is_ok());
    let mut r = base.clone();
    r.amount = 100_000_001;
    r.description = String::new();
    assert_eq!(validate_create_transaction(&r).unwrap_err(), "Transaction amount cannot exceed $1000000");
    let mut r = base.clone();
    r.description = String::new();
    assert_eq!(validate_create_transaction(&r).unwrap_err(), "Description is required");
    let mut r = base.clone();
    r.description = "x".repeat(1001);
    assert_eq!(validate_create_transaction(&r).unwrap_err(), "Description must be at most 1000 characters");
    let mut r = base.clone();
    r.reference = Some("r".repeat(201));
    assert_eq!(validate_create_transaction(&r).unwrap_err(), "Reference must be at most 200 characters");
    for bad in ["usd", "US", "USDX", "U$D", "ÉUR", "éu", ""] {
        let mut r = base.clone();
        r.currency = Some(bad.to_string());
        assert_eq!(
            validate_create_transaction(&r).unwrap_err(),
            "Currency must be a valid 3-letter ISO 4217 code (e.g., USD, EUR)"
        );
    }
    for good in ["USD", "AAA", "ZZZ"] {
        let mut r = base.clone();
        r.currency = Some(good.to_string());
        assert!(validate_create_transaction(&r).is_ok());
    }
}

#[test]
fn contact_verdicts_in_words() {
    let long = |n: usize| Some("x".repeat(n));
    let mut request = CreateContactRequest {
        user_id: None,
        email: "bad".to_string(),
        name: long(101),
        company: long(201),
        job_title: long(101),
        interest_area: long(201),
        source: None,
        notes: long(5001),
    };
    let mut verdicts = Vec::new();
    verdicts.push(validate_create_contact(&request).unwrap_err());
    request.email = "ok@mail.io".to_string();
    verdicts.push(validate_create_contact(&request).unwrap_err());
    request.name = long(100);
    verdicts.push(validate_create_contact(&request).unwrap_err());
    request.company = long(200);
    verdicts.push(validate_create_contact(&request).unwrap_err());
    request.job_title = long(100);
    verdicts.push(validate_create_contact(&request).unwrap_err());
    request.interest_area = long(200);
    verdicts.push(validate_create_contact(&request).unwrap_err());
    request.notes = long(5000);
    assert!(validate_create_contact(&request).is_ok());
    assert_eq!(
        verdicts,
        vec![
            "Invalid email format",
            "Name must be at most 100 characters",
            "Company must be at most 200 characters",
            "Job title must be at most 100 characters",
            "Interest area must be at most 200 characters",
            "Notes must be at most 5000 characters",
        ]
    );
    let update = UpdateContactRequest {
        id: 1,
        name: Some("x".to_string()),
        company: long(201),
        job_title: None,
        interest_area: None,
        notes: None,
        status: None,
    };
    assert_eq!(validate_update_contact(&update).unwrap_err(), "Name must be at least 2 characters");
}
