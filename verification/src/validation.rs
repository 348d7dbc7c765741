//! Validation of what is asked for, before it reaches the store.

use vstd::prelude::*;
use vstd::string::*;
use vstd::utf8::encode_utf8;
use crate::text::{decimal, decimal_text};
use crate::types::{
    CreateContactRequest, CreateDealRequest, CreateTransactionRequest, UpdateContactRequest,
    UpdateDealRequest,
};

verus! {

/// The largest amount of a transaction, in cents: one million dollars.
pub const MAX_TRANSACTION_AMOUNT: u64 = 100_000_000;

/// The largest value of a deal, in cents: ten million dollars.
pub const MAX_DEAL_VALUE: u64 = 1_000_000_000;

/// The fewest characters of a contact's name.
pub const CONTACT_NAME_MIN_LEN: usize = 2;

/// The most characters of a contact's name.
pub const CONTACT_NAME_MAX_LEN: usize = 100;

/// The most characters of a contact's company.
pub const CONTACT_COMPANY_MAX_LEN: usize = 200;

/// The most characters of a contact's job title.
pub const CONTACT_JOB_TITLE_MAX_LEN: usize = 100;

/// The most characters of a contact's interest area.
pub const CONTACT_INTEREST_AREA_MAX_LEN: usize = 200;

/// The most characters of the notes on a contact.
pub const CONTACT_NOTES_MAX_LEN: usize = 5000;

/// The fewest characters of a deal's name.
pub const DEAL_NAME_MIN_LEN: usize = 3;

/// The most characters of a deal's name.
pub const DEAL_NAME_MAX_LEN: usize = 200;

/// The most characters of the notes on a deal.
pub const DEAL_NOTES_MAX_LEN: usize = 5000;

/// The most characters of a transaction's description.
pub const TRANSACTION_DESC_MAX_LEN: usize = 1000;

/// The most characters of a transaction's reference.
pub const TRANSACTION_REF_MAX_LEN: usize = 200;

/// The longest email, in bytes.
pub const EMAIL_MAX_LEN: usize = 254;

/// The pattern of an email: a local part, `@`, a domain, a dot and a
/// top-level domain of two letters or more.
pub open spec fn email_pattern_text() -> Seq<char> {
    "^[a-zA-Z0-9._%+-]+@[a-zA-Z0-9.-]+\\.[a-zA-Z]{2,}$"@
}

fn email_pattern() -> (r: &'static str)
    ensures
        r@ == email_pattern_text(),
{
    "^[a-zA-Z0-9._%+-]+@[a-zA-Z0-9.-]+\\.[a-zA-Z]{2,}$"
}

/// Whether the regular expression `pattern` matches somewhere in `text`;
/// `None` where `pattern` is no regular expression.
pub uninterp spec fn regex_match(pattern: Seq<char>, text: Seq<char>) -> Option<bool>;

/// `Regex::new` and `Regex::is_match` of the crate `regex`: compiles
/// `pattern`, anew on every call, and searches `text` for a match. What
/// comes back depends on the two texts alone, and is named `regex_match`; a
/// pattern that does not compile gives `None`.
#[verifier::external_body]
fn pattern_matches(pattern: &str, text: &str) -> (r: Option<bool>)
    ensures
        r == regex_match(pattern@, text@),
{
    match regex::Regex::new(pattern) {
        Ok(re) => Some(re.is_match(text)),
        Err(_) => None,
    }
}

/// Whether `email` has the shape of an email.
pub open spec fn email_well_formed(email: Seq<char>) -> bool {
    regex_match(email_pattern_text(), email) == Some(true)
}

/// What is wrong with a value: nothing, or a message.
pub type Fault = Option<Seq<char>>;

/// The first of two faults.
pub open spec fn first_fault(a: Fault, b: Fault) -> Fault {
    if a is Some {
        a
    } else {
        b
    }
}

/// Whether `r` reports `fault`: `Ok` where there is none, and else the
/// message.
pub open spec fn reports(r: Result<(), String>, fault: Fault) -> bool {
    match fault {
        None => r is Ok,
        Some(message) => r is Err && r->Err_0@ == message,
    }
}

/// What is wrong with an email, given whether it has the shape of one.
pub open spec fn email_fault(email: Seq<char>, well_formed: bool) -> Fault {
    if email.len() == 0 {
        Some("Email is required"@)
    } else if encode_utf8(email).len() > EMAIL_MAX_LEN {
        Some("Email must be at most 254 characters"@)
    } else if !well_formed {
        Some("Invalid email format"@)
    } else {
        None
    }
}

/// What is wrong with the length of a text: it counts too few characters,
/// or too many.
pub open spec fn length_fault(
    value: Seq<char>,
    field_name: Seq<char>,
    min_len: Option<usize>,
    max_len: usize,
) -> Fault {
    if min_len is Some && value.len() < min_len->0 {
        Some(field_name + " must be at least "@ + decimal_text(min_len->0 as nat) + " characters"@)
    } else if value.len() > max_len {
        Some(field_name + " must be at most "@ + decimal_text(max_len as nat) + " characters"@)
    } else {
        None
    }
}

/// What is wrong with the length of a text that may be missing.
pub open spec fn optional_length_fault(
    value: Option<String>,
    field_name: Seq<char>,
    min_len: Option<usize>,
    max_len: usize,
) -> Fault {
    match value {
        Some(v) => length_fault(v@, field_name, min_len, max_len),
        None => None,
    }
}

/// What is wrong with the optional texts of a contact.
pub open spec fn contact_fields_fault(
    name: Option<String>,
    company: Option<String>,
    job_title: Option<String>,
    interest_area: Option<String>,
    notes: Option<String>,
) -> Fault {
    first_fault(
        optional_length_fault(name, "Name"@, Some(CONTACT_NAME_MIN_LEN), CONTACT_NAME_MAX_LEN),
        first_fault(
            optional_length_fault(company, "Company"@, None, CONTACT_COMPANY_MAX_LEN),
            first_fault(
                optional_length_fault(job_title, "Job title"@, None, CONTACT_JOB_TITLE_MAX_LEN),
                first_fault(
                    optional_length_fault(
                        interest_area,
                        "Interest area"@,
                        None,
                        CONTACT_INTEREST_AREA_MAX_LEN,
                    ),
                    optional_length_fault(notes, "Notes"@, None, CONTACT_NOTES_MAX_LEN),
                ),
            ),
        ),
    )
}

/// What is wrong with a request to create a contact.
pub open spec fn create_contact_fault(request: CreateContactRequest) -> Fault {
    first_fault(
        email_fault(request.email@, email_well_formed(request.email@)),
        contact_fields_fault(
            request.name,
            request.company,
            request.job_title,
            request.interest_area,
            request.notes,
        ),
    )
}

/// What is wrong with a request to update a contact.
pub open spec fn update_contact_fault(request: UpdateContactRequest) -> Fault {
    contact_fields_fault(
        request.name,
        request.company,
        request.job_title,
        request.interest_area,
        request.notes,
    )
}

/// What is wrong with the value of a deal.
pub open spec fn deal_value_fault(value: Option<u64>) -> Fault {
    if value is Some && value->0 > MAX_DEAL_VALUE {
        Some("Deal value cannot exceed $"@ + decimal_text((MAX_DEAL_VALUE / 100) as nat))
    } else {
        None
    }
}

/// What is wrong with a request to create a deal.
pub open spec fn create_deal_fault(request: CreateDealRequest) -> Fault {
    first_fault(
        length_fault(request.name@, "Deal name"@, Some(DEAL_NAME_MIN_LEN), DEAL_NAME_MAX_LEN),
        first_fault(
            deal_value_fault(request.value),
            optional_length_fault(request.notes, "Notes"@, None, DEAL_NOTES_MAX_LEN),
        ),
    )
}

/// What is wrong with a request to update a deal.
pub open spec fn update_deal_fault(request: UpdateDealRequest) -> Fault {
    first_fault(
        optional_length_fault(
            request.name,
            "Deal name"@,
            Some(DEAL_NAME_MIN_LEN),
            DEAL_NAME_MAX_LEN,
        ),
        first_fault(
            deal_value_fault(request.value),
            optional_length_fault(request.notes, "Notes"@, None, DEAL_NOTES_MAX_LEN),
        ),
    )
}

/// Whether `c` is an upper-case letter from A to Z.
pub open spec fn is_upper_letter(c: char) -> bool {
    'A' <= c && c <= 'Z'
}

/// Whether `code` has the shape of a currency code: three upper-case letters.
pub open spec fn is_currency_code(code: Seq<char>) -> bool {
    code.len() == 3 && is_upper_letter(code[0]) && is_upper_letter(code[1]) && is_upper_letter(
        code[2],
    )
}

/// What is wrong with a request to record a transaction.
pub open spec fn create_transaction_fault(request: CreateTransactionRequest) -> Fault {
    if request.amount > MAX_TRANSACTION_AMOUNT {
        Some(
            "Transaction amount cannot exceed $"@ + decimal_text(
                (MAX_TRANSACTION_AMOUNT / 100) as nat,
            ),
        )
    } else if request.description@.len() == 0 {
        Some("Description is required"@)
    } else {
        first_fault(
            length_fault(request.description@, "Description"@, None, TRANSACTION_DESC_MAX_LEN),
            first_fault(
                optional_length_fault(request.reference, "Reference"@, None, TRANSACTION_REF_MAX_LEN),
                if request.currency is Some && !is_currency_code(request.currency->0@) {
                    Some("Currency must be a valid 3-letter ISO 4217 code (e.g., USD, EUR)"@)
                } else {
                    None
                },
            ),
        )
    }
}

/// Judges an email, given whether it has the shape of one.
pub fn check_email(email: &str, well_formed: bool) -> (r: Result<(), String>)
    ensures
        reports(r, email_fault(email@, well_formed)),
{
    if email.is_empty() {
        return Err("Email is required".to_string());
    }
    if email.as_bytes().len() > EMAIL_MAX_LEN {
        return Err("Email must be at most 254 characters".to_string());
    }
    if !well_formed {
        return Err("Invalid email format".to_string());
    }
    Ok(())
}

/// Judges an email: it is there, it has 254 bytes at most, and it has the
/// shape of an email.
pub fn validate_email(email: &str) -> (r: Result<(), String>)
    ensures
        reports(r, email_fault(email@, email_well_formed(email@))),
{
    let well_formed: bool = match pattern_matches(email_pattern(), email) {
        Some(found) => found,
        None => false,
    };
    check_email(email, well_formed)
}

/// Judges the number of characters of a text.
pub fn validate_string_length(
    value: &str,
    field_name: &str,
    min_len: Option<usize>,
    max_len: usize,
) -> (r: Result<(), String>)
    ensures
        reports(r, length_fault(value@, field_name@, min_len, max_len)),
{
    let len: usize = value.unicode_len();
    match min_len {
        Some(min) => {
            if len < min {
                let mut message = field_name.to_string();
                message.append(" must be at least ");
                message.append(decimal(min as u64).as_str());
                message.append(" characters");
                return Err(message);
            }
        },
        None => {},
    }
    if len > max_len {
        let mut message = field_name.to_string();
        message.append(" must be at most ");
        message.append(decimal(max_len as u64).as_str());
        message.append(" characters");
        return Err(message);
    }
    Ok(())
}

/// Judges the number of characters of a text that may be missing.
pub fn validate_optional_string_length(
    value: &Option<String>,
    field_name: &str,
    min_len: Option<usize>,
    max_len: usize,
) -> (r: Result<(), String>)
    ensures
        reports(r, optional_length_fault(*value, field_name@, min_len, max_len)),
{
    match value {
        Some(v) => validate_string_length(v.as_str(), field_name, min_len, max_len),
        None => Ok(()),
    }
}

fn validate_contact_fields(
    name: &Option<String>,
    company: &Option<String>,
    job_title: &Option<String>,
    interest_area: &Option<String>,
    notes: &Option<String>,
) -> (r: Result<(), String>)
    ensures
        reports(r, contact_fields_fault(*name, *company, *job_title, *interest_area, *notes)),
{
    validate_optional_string_length(name, "Name", Some(CONTACT_NAME_MIN_LEN), CONTACT_NAME_MAX_LEN)?;
    validate_optional_string_length(company, "Company", None, CONTACT_COMPANY_MAX_LEN)?;
    validate_optional_string_length(job_title, "Job title", None, CONTACT_JOB_TITLE_MAX_LEN)?;
    validate_optional_string_length(
        interest_area,
        "Interest area",
        None,
        CONTACT_INTEREST_AREA_MAX_LEN,
    )?;
    validate_optional_string_length(notes, "Notes", None, CONTACT_NOTES_MAX_LEN)?;
    Ok(())
}

/// Judges a request to create a contact: the email first, then the name,
/// the company, the job title, the interest area and the notes.
pub fn validate_create_contact(request: &CreateContactRequest) -> (r: Result<(), String>)
    ensures
        reports(r, create_contact_fault(*request)),
{
    validate_email(request.email.as_str())?;
    validate_contact_fields(
        &request.name,
        &request.company,
        &request.job_title,
        &request.interest_area,
        &request.notes,
    )
}

/// Judges a request to update a contact.
pub fn validate_update_contact(request: &UpdateContactRequest) -> (r: Result<(), String>)
    ensures
        reports(r, update_contact_fault(*request)),
{
    validate_contact_fields(
        &request.name,
        &request.company,
        &request.job_title,
        &request.interest_area,
        &request.notes,
    )
}

fn validate_deal_value(value: Option<u64>) -> (r: Result<(), String>)
    ensures
        reports(r, deal_value_fault(value)),
{
    match value {
        Some(v) => {
            if v > MAX_DEAL_VALUE {
                let mut message = "Deal value cannot exceed $".to_string();
                message.append(decimal(MAX_DEAL_VALUE / 100).as_str());
                return Err(message);
            }
        },
        None => {},
    }
    Ok(())
}

/// Judges a request to create a deal: the name, the value and the notes.
pub fn validate_create_deal(request: &CreateDealRequest) -> (r: Result<(), String>)
    ensures
        reports(r, create_deal_fault(*request)),
{
    validate_string_length(
        request.name.as_str(),
        "Deal name",
        Some(DEAL_NAME_MIN_LEN),
        DEAL_NAME_MAX_LEN,
    )?;
    validate_deal_value(request.value)?;
    validate_optional_string_length(&request.notes, "Notes", None, DEAL_NOTES_MAX_LEN)?;
    Ok(())
}

/// Judges a request to update a deal.
pub fn validate_update_deal(request: &UpdateDealRequest) -> (r: Result<(), String>)
    ensures
        reports(r, update_deal_fault(*request)),
{
    validate_optional_string_length(
        &request.name,
        "Deal name",
        Some(DEAL_NAME_MIN_LEN),
        DEAL_NAME_MAX_LEN,
    )?;
    validate_deal_value(request.value)?;
    validate_optional_string_length(&request.notes, "Notes", None, DEAL_NOTES_MAX_LEN)?;
    Ok(())
}

fn upper_letter(c: char) -> (r: bool)
    ensures
        r == is_upper_letter(c),
{
    'A' <= c && c <= 'Z'
}

fn currency_code(code: &str) -> (r: bool)
    ensures
        r == is_currency_code(code@),
{
    code.unicode_len() == 3 && upper_letter(code.get_char(0)) && upper_letter(code.get_char(1))
        && upper_letter(code.get_char(2))
}

/// Judges a request to record a transaction: the amount, the description,
/// the reference and the currency.
pub fn validate_create_transaction(request: &CreateTransactionRequest) -> (r: Result<(), String>)
    ensures
        reports(r, create_transaction_fault(*request)),
{
    if request.amount > MAX_TRANSACTION_AMOUNT {
        let mut message = "Transaction amount cannot exceed $".to_string();
        message.append(decimal(MAX_TRANSACTION_AMOUNT / 100).as_str());
        return Err(message);
    }
    if request.description.as_str().is_empty() {
        return Err("Description is required".to_string());
    }
    validate_string_length(
        request.description.as_str(),
        "Description",
        None,
        TRANSACTION_DESC_MAX_LEN,
    )?;
    validate_optional_string_length(&request.reference, "Reference", None, TRANSACTION_REF_MAX_LEN)?;
    match &request.currency {
        Some(code) => {
            if !currency_code(code.as_str()) {
                return Err(
                    "Currency must be a valid 3-letter ISO 4217 code (e.g., USD, EUR)".to_string(),
                );
            }
        },
        None => {},
    }
    Ok(())
}

} // verus!
