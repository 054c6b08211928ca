//! Subscriber email addresses, validated by the HTML5 form-validation
//! grammar.

use vstd::prelude::*;

verus! {

/// Whether the HTML5 form-validation email grammar accepts an address;
/// the answer is a function of the text alone.
pub uninterp spec fn email_accepted(s: Seq<char>) -> bool;

/// Relies on validator::ValidateEmail::validate_email for &str, which
/// checks an address against the HTML5 form-validation grammar; its
/// answer depends on the text alone.
#[verifier::external_body]
pub(crate) fn validate_email_text(s: &str) -> (r: bool)
    ensures
        r == email_accepted(s@),
{
    validator::ValidateEmail::validate_email(&s)
}

/// An address that passed validation.  Values of this type always satisfy
/// [`email_accepted`].
pub struct SubscriberEmail {
    email: String,
}

impl View for SubscriberEmail {
    type V = Seq<char>;

    closed spec fn view(&self) -> Seq<char> {
        self.email@
    }
}

impl SubscriberEmail {
    /// Every constructed address is accepted by the grammar.
    pub closed spec fn wf(&self) -> bool {
        email_accepted(self.email@)
    }

    /// Accepts exactly the addresses that [`email_accepted`] allows; an
    /// accepted address carries the given text unchanged.
    pub fn from_str(s: &str) -> (r: Result<SubscriberEmail, String>)
        ensures
            r matches Ok(e) ==> e@ == s@ && e.wf(),
            r is Ok <==> email_accepted(s@),
    {
        if validate_email_text(s) {
            Ok(SubscriberEmail { email: String::from_str(s) })
        } else {
            Err(String::from_str("Invalid email."))
        }
    }

    /// As [`from_str`](Self::from_str), taking the address by value.
    pub fn try_from(s: String) -> (r: Result<SubscriberEmail, String>)
        ensures
            r matches Ok(e) ==> e@ == s@ && e.wf(),
            r is Ok <==> email_accepted(s@),
    {
        if validate_email_text(s.as_str()) {
            Ok(SubscriberEmail { email: s })
        } else {
            Err(String::from_str("Invalid email."))
        }
    }

    /// The address text as an owned-string reference.
    pub fn as_string(&self) -> (r: &String)
        ensures
            r@ == self@,
    {
        &self.email
    }

    /// The address text.
    pub fn as_ref(&self) -> (r: &str)
        ensures
            r@ == self@,
    {
        self.email.as_str()
    }
}

} // verus!
