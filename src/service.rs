//! Checks that the filter and page services make before they touch the
//! database.

use vstd::prelude::*;
use crate::domain::{normalize_in_place, normalized};
use crate::text::same_str;

verus! {

/// Why a service request is refused.
#[derive(Clone, Copy, Debug, PartialEq, Eq, Structural)]
pub enum Error {
    BadRequest,
    NotFound,
    Conflict,
}

/// Whether `pattern` is a regular expression that the `regex` crate accepts.
pub uninterp spec fn is_valid_regex(pattern: Seq<char>) -> bool;

/// Relies on `regex::Regex::new`: it compiles the pattern with the default
/// limits and reports a bad pattern as an error. Within one build whether it
/// succeeds depends on the pattern alone; only near the size limit can the
/// answer differ between targets of different pointer width.
#[verifier::external_body]
fn compiles_as_regex(pattern: &str) -> (r: bool)
    ensures
        r == is_valid_regex(pattern@),
{
    regex::Regex::new(pattern).is_ok()
}

/// Operations on text filters.
#[derive(Debug)]
pub struct FilterService;

impl FilterService {
    /// A filter's pattern must be a valid regular expression.
    pub fn validate_regex(regex: &str) -> (r: Result<(), Error>)
        ensures
            r is Ok <==> is_valid_regex(regex@),
            r is Err ==> r == Err::<(), Error>(Error::BadRequest),
    {
        if compiles_as_regex(regex) {
            Ok(())
        } else {
            Err(Error::BadRequest)
        }
    }

    /// A filter can be deleted only while it is not deleted.
    pub fn check_delete(deleted: bool) -> (r: Result<(), Error>)
        ensures
            r == (if deleted {
                Err(Error::BadRequest)
            } else {
                Ok(())
            }),
    {
        if deleted {
            Err(Error::BadRequest)
        } else {
            Ok(())
        }
    }

    /// A filter can be restored only while it is deleted.
    pub fn check_restore(deleted: bool) -> (r: Result<(), Error>)
        ensures
            r == (if deleted {
                Ok(())
            } else {
                Err(Error::BadRequest)
            }),
    {
        if deleted {
            Ok(())
        } else {
            Err(Error::BadRequest)
        }
    }
}

/// Operations on pages.
#[derive(Debug)]
pub struct PageService;

impl PageService {
    /// The slug a page moves to, given the slug in normal form: a move to the
    /// slug the page already has is refused.
    pub fn move_target_normalized(old_slug: &str, new_slug: String) -> (r: Result<String, Error>)
        ensures
            match r {
                Ok(s) => s@ == new_slug@ && old_slug@ != new_slug@,
                Err(e) => e == Error::BadRequest && old_slug@ == new_slug@,
            },
    {
        if same_str(old_slug, new_slug.as_str()) {
            Err(Error::BadRequest)
        } else {
            Ok(new_slug)
        }
    }

    /// The slug a page moves to: `new_slug` in normal form, unless that is
    /// the slug the page already has.
    pub fn move_target(old_slug: &str, new_slug: &str) -> (r: Result<String, Error>)
        ensures
            match r {
                Ok(s) => s@ == normalized(new_slug@) && old_slug@ != s@,
                Err(e) => e == Error::BadRequest && old_slug@ == normalized(new_slug@),
            },
    {
        let mut target = String::from_str(new_slug);
        normalize_in_place(&mut target);
        PageService::move_target_normalized(old_slug, target)
    }

    /// A page can be restored only on its own site and only while deleted.
    pub fn check_restore(page_site_id: i64, site_id: i64, deleted: bool) -> (r: Result<(), Error>)
        ensures
            r == (if page_site_id != site_id {
                Err(Error::NotFound)
            } else if !deleted {
                Err(Error::BadRequest)
            } else {
                Ok(())
            }),
    {
        if page_site_id != site_id {
            return Err(Error::NotFound);
        }
        if !deleted {
            return Err(Error::BadRequest);
        }
        Ok(())
    }
}

} // verus!
