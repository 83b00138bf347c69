//! The platform credential store (through the `keyring` crate). What the
//! store answers depends on the machine, so nothing is claimed of it beyond
//! the shape of the results.

use vstd::prelude::*;

verus! {

/// A named entry in the platform credential store.
#[verifier::external_type_specification]
#[verifier::external_body]
pub struct ExKeyringEntry(keyring::Entry);

/// `keyring::Entry::new(service, user)`; where the crate reports an error
/// (no usable store, or an invalid name), that error rendered as text.
#[verifier::external_body]
pub(crate) fn keyring_entry(service: &str, user: &str) -> Result<keyring::Entry, String> {
    match keyring::Entry::new(service, user) {
        Ok(entry) => Ok(entry),
        Err(e) => Err(e.to_string()),
    }
}

/// `Entry::set_password`; the crate's error rendered as text.
#[verifier::external_body]
pub(crate) fn entry_set_password(entry: &keyring::Entry, password: &str) -> Result<(), String> {
    match entry.set_password(password) {
        Ok(()) => Ok(()),
        Err(e) => Err(e.to_string()),
    }
}

/// `Entry::get_password`; `None` where the crate reports an error (such as
/// no entry stored).
#[verifier::external_body]
pub(crate) fn entry_get_password(entry: &keyring::Entry) -> Option<String> {
    entry.get_password().ok()
}

/// `Entry::delete_credential`; the crate's error rendered as text.
#[verifier::external_body]
pub(crate) fn entry_delete(entry: &keyring::Entry) -> Result<(), String> {
    match entry.delete_credential() {
        Ok(()) => Ok(()),
        Err(e) => Err(e.to_string()),
    }
}

} // verus!
