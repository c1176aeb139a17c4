//! The resource record, its category enumeration, the caller identity,
//! the error taxonomy, and input validation.

use vstd::prelude::*;

verus! {

/// One stored informational entry.
///
/// `id` is assigned by the store and never client-supplied; `created_at` is
/// set once at creation; `updated_at` is refreshed by every mutation,
/// verification included; `verified` starts `false` and is set only through
/// `EczemaStore::verify_resource`.
#[derive(Debug)]
pub struct EczemaResource {
    pub id: u64,
    pub title: String,
    pub description: String,
    pub category: ResourceCategory,
    pub created_at: u64,
    pub updated_at: u64,
    pub verified: bool,
}

/// The closed set of categories a resource can carry.
#[derive(Clone, Copy, PartialEq, Eq, Structural, Debug)]
pub enum ResourceCategory {
    Treatment,
    Prevention,
    Research,
    DietAdvice,
    Testimonial,
    MedicalAdvice,
}

/// The fields a caller supplies to create or overwrite a resource.
pub struct CreateResourcePayload {
    pub title: String,
    pub description: String,
    pub category: ResourceCategory,
}

/// Every recoverable outcome an operation can report.
///
/// `AlreadyExists` is reserved: ids are store-assigned and never collide, so
/// no current operation returns it.
#[derive(Debug, PartialEq)]
pub enum EczemaError {
    NotFound,
    AlreadyExists,
    InvalidInput(String),
    Unauthorized,
}

/// An opaque caller identity, carried as its raw bytes.
pub struct CallerId {
    pub bytes: Vec<u8>,
}

impl CallerId {
    pub fn new(bytes: Vec<u8>) -> (c: CallerId)
        ensures
            c.bytes == bytes,
    {
        CallerId { bytes }
    }
}

impl Clone for EczemaResource {
    fn clone(&self) -> (r: Self)
        ensures
            r == *self,
    {
        EczemaResource {
            id: self.id,
            title: self.title.clone(),
            description: self.description.clone(),
            category: self.category,
            created_at: self.created_at,
            updated_at: self.updated_at,
            verified: self.verified,
        }
    }
}

/// A title must hold between 1 and 100 characters.
pub open spec fn valid_title(title: Seq<char>) -> bool {
    1 <= title.len() <= 100
}

/// A description must hold between 1 and 500 characters.
pub open spec fn valid_description(description: Seq<char>) -> bool {
    1 <= description.len() <= 500
}

pub open spec fn valid_input(title: Seq<char>, description: Seq<char>) -> bool {
    valid_title(title) && valid_description(description)
}

pub open spec fn title_error_text() -> Seq<char> {
    "Title must be 1-100 characters long."@
}

pub open spec fn description_error_text() -> Seq<char> {
    "Description must be 1-500 characters long."@
}

/// The exact error that validation reports for the given inputs: the title
/// bound is checked first, so a title failure masks a description failure.
pub open spec fn validation_error_for(title: Seq<char>, description: Seq<char>, e: EczemaError) -> bool {
    if !valid_title(title) {
        e matches EczemaError::InvalidInput(m) && m@ == title_error_text()
    } else if !valid_description(description) {
        e matches EczemaError::InvalidInput(m) && m@ == description_error_text()
    } else {
        false
    }
}

/// Checks the title and description length bounds, title first, and reports
/// which field failed. Lengths are counted in characters.
pub fn validate_input(title: &str, description: &str) -> (r: Result<(), EczemaError>)
    ensures
        r matches Ok(_) <==> valid_input(title@, description@),
        r matches Err(e) ==> validation_error_for(title@, description@, e),
{
    let title_len: usize = title.unicode_len();
    if title_len == 0 || title_len > 100 {
        return Err(EczemaError::InvalidInput(String::from_str("Title must be 1-100 characters long.")));
    }
    let description_len: usize = description.unicode_len();
    if description_len == 0 || description_len > 500 {
        return Err(EczemaError::InvalidInput(String::from_str("Description must be 1-500 characters long.")));
    }
    Ok(())
}

} // verus!
