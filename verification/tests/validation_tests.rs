use dao_admin::types::{
    CreateContactRequest, CreateDealRequest, CreateTransactionRequest, TransactionCategory,
    TransactionType, UpdateContactRequest,
};
use dao_admin::validation::{
    validate_create_contact, validate_create_deal, validate_create_transaction, validate_email,
    validate_string_length, validate_update_contact, MAX_DEAL_VALUE, MAX_TRANSACTION_AMOUNT,
};

#[test]
fn test_valid_emails() {
    assert!(validate_email("test@example.com").is_ok());
    assert!(validate_email("user.name@domain.org").is_ok());
    assert!(validate_email("user+tag@example.co.uk").is_ok());
    assert!(validate_email("a@b.co").is_ok());
}

#[test]
fn test_invalid_emails() {
    assert!(validate_email("").is_err());
    assert!(validate_email("notanemail").is_err());
    assert!(validate_email("missing@domain").is_err());
    assert!(validate_email("@nodomain.com").is_err());
    assert!(validate_email("spaces in@email.com").is_err());
}

#[test]
fn test_email_too_long() {
    let long_email = format!("{}@example.com", "a".repeat(250));
    assert!(validate_email(&long_email).is_err());
}

#[test]
fn test_string_length_valid() {
    assert!(validate_string_length("Hello", "Field", Some(2), 10).is_ok());
    assert!(validate_string_length("AB", "Field", Some(2), 10).is_ok());
    assert!(validate_string_length("ABCDEFGHIJ", "Field", Some(2), 10).is_ok());
}

#[test]
fn test_string_length_too_short() {
    let result = validate_string_length("A", "Name", Some(2), 10);
    assert!(result.is_err());
    assert!(result.unwrap_err().contains("at least 2"));
}

#[test]
fn test_string_length_too_long() {
    let result = validate_string_length("ABCDEFGHIJK", "Name", Some(2), 10);
    assert!(result.is_err());
    assert!(result.unwrap_err().contains("at most 10"));
}

#[test]
fn test_valid_contact_request() {
    let request = CreateContactRequest {
        user_id: None,
        email: "test@example.com".to_string(),
        name: Some("John Doe".to_string()),
        company: Some("Acme Corp".to_string()),
        job_title: Some("Engineer".to_string()),
        interest_area: Some("Technology".to_string()),
        source: None,
        notes: None,
    };
    assert!(validate_create_contact(&request).is_ok());
}

#[test]
fn test_contact_invalid_email() {
    let request = CreateContactRequest {
        user_id: None,
        email: "invalid-email".to_string(),
        name: None,
        company: None,
        job_title: None,
        interest_area: None,
        source: None,
        notes: None,
    };
    let result = validate_create_contact(&request);
    assert!(result.is_err());
    assert!(result.unwrap_err().contains("email"));
}

#[test]
fn test_contact_name_too_short() {
    let request = CreateContactRequest {
        user_id: None,
        email: "test@example.com".to_string(),
        name: Some("A".to_string()),
        company: None,
        job_title: None,
        interest_area: None,
        source: None,
        notes: None,
    };
    let result = validate_create_contact(&request);
    assert!(result.is_err());
    assert!(result.unwrap_err().contains("Name"));
}

#[test]
fn test_contact_notes_too_long() {
    let request = CreateContactRequest {
        user_id: None,
        email: "test@example.com".to_string(),
        name: None,
        company: None,
        job_title: None,
        interest_area: None,
        source: None,
        notes: Some("x".repeat(5001)),
    };
    let result = validate_create_contact(&request);
    assert!(result.is_err());
    assert!(result.unwrap_err().contains("Notes"));
}

#[test]
fn test_valid_update_contact_request() {
    let request = UpdateContactRequest {
        id: 1,
        name: Some("John Doe".to_string()),
        company: Some("Acme Corp".to_string()),
        job_title: Some("Engineer".to_string()),
        interest_area: Some("Technology".to_string()),
        notes: Some("Updated notes".to_string()),
        status: None,
    };
    assert!(validate_update_contact(&request).is_ok());
}

#[test]
fn test_update_contact_name_too_short() {
    let request = UpdateContactRequest {
        id: 1,
        name: Some("A".to_string()),
        company: None,
        job_title: None,
        interest_area: None,
        notes: None,
        status: None,
    };
    let result = validate_update_contact(&request);
    assert!(result.is_err());
    assert!(result.unwrap_err().contains("Name"));
}

#[test]
fn test_update_contact_notes_too_long() {
    let request = UpdateContactRequest {
        id: 1,
        name: None,
        company: None,
        job_title: None,
        interest_area: None,
        notes: Some("x".repeat(5001)),
        status: None,
    };
    let result = validate_update_contact(&request);
    assert!(result.is_err());
    assert!(result.unwrap_err().contains("Notes"));
}

#[test]
fn test_update_contact_all_none_is_valid() {
    let request = UpdateContactRequest {
        id: 1,
        name: None,
        company: None,
        job_title: None,
        interest_area: None,
        notes: None,
        status: None,
    };
    assert!(validate_update_contact(&request).is_ok());
}

#[test]
fn test_valid_deal_request() {
    let request = CreateDealRequest {
        contact_id: 1,
        name: "New Deal".to_string(),
        value: Some(100_000),
        notes: Some("Important deal".to_string()),
        expected_close_date: None,
    };
    assert!(validate_create_deal(&request).is_ok());
}

#[test]
fn test_deal_name_too_short() {
    let request = CreateDealRequest {
        contact_id: 1,
        name: "AB".to_string(),
        value: None,
        notes: None,
        expected_close_date: None,
    };
    let result = validate_create_deal(&request);
    assert!(result.is_err());
    assert!(result.unwrap_err().contains("Deal name"));
}

#[test]
fn test_deal_value_exceeds_max() {
    let request = CreateDealRequest {
        contact_id: 1,
        name: "Big Deal".to_string(),
        value: Some(MAX_DEAL_VALUE + 1),
        notes: None,
        expected_close_date: None,
    };
    let result = validate_create_deal(&request);
    assert!(result.is_err());
    assert!(result.unwrap_err().contains("cannot exceed"));
}

#[test]
fn test_valid_transaction_request() {
    let request = CreateTransactionRequest {
        transaction_type: TransactionType::Income,
        category: TransactionCategory::Subscription,
        amount: 10_000,
        currency: Some("USD".to_string()),
        description: "Monthly subscription".to_string(),
        reference: Some("INV-001".to_string()),
        date: None,
    };
    assert!(validate_create_transaction(&request).is_ok());
}

#[test]
fn test_transaction_amount_exceeds_max() {
    let request = CreateTransactionRequest {
        transaction_type: TransactionType::Expense,
        category: TransactionCategory::Other,
        amount: MAX_TRANSACTION_AMOUNT + 1,
        currency: None,
        description: "Large expense".to_string(),
        reference: None,
        date: None,
    };
    let result = validate_create_transaction(&request);
    assert!(result.is_err());
    assert!(result.unwrap_err().contains("cannot exceed"));
}

#[test]
fn test_transaction_empty_description() {
    let request = CreateTransactionRequest {
        transaction_type: TransactionType::Income,
        category: TransactionCategory::Other,
        amount: 1000,
        currency: None,
        description: "".to_string(),
        reference: None,
        date: None,
    };
    let result = validate_create_transaction(&request);
    assert!(result.is_err());
    assert!(result.unwrap_err().contains("Description"));
}

#[test]
fn test_transaction_invalid_currency() {
    let request = CreateTransactionRequest {
        transaction_type: TransactionType::Income,
        category: TransactionCategory::Other,
        amount: 1000,
        currency: Some("usd".to_string()),
        description: "Test".to_string(),
        reference: None,
        date: None,
    };
    let result = validate_create_transaction(&request);
    assert!(result.is_err());
    assert!(result.unwrap_err().contains("ISO 4217"));

    let request2 = CreateTransactionRequest {
        transaction_type: TransactionType::Income,
        category: TransactionCategory::Other,
        amount: 1000,
        currency: Some("US".to_string()),
        description: "Test".to_string(),
        reference: None,
        date: None,
    };
    assert!(validate_create_transaction(&request2).is_err());
}

#[test]
fn test_transaction_description_too_long() {
    let request = CreateTransactionRequest {
        transaction_type: TransactionType::Income,
        category: TransactionCategory::Other,
        amount: 1000,
        currency: None,
        description: "x".repeat(1001),
        reference: None,
        date: None,
    };
    let result = validate_create_transaction(&request);
    assert!(result.is_err());
    assert!(result.unwrap_err().contains("Description"));
}
