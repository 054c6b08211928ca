//! Subscriber display names.  A name is accepted when it is not blank,
//! no longer than 256 characters, and free of characters that could break
//! out of markup or quoting.

use vstd::prelude::*;
use vstd::string::StrSliceExecFns;

verus! {

/// Whether char::is_whitespace answers true for `c`; a function of the
/// character alone.
pub uninterp spec fn unicode_whitespace(c: char) -> bool;

/// Relies on char::is_whitespace, which answers by the Unicode
/// White_Space property of the character alone.
pub assume_specification[ char::is_whitespace ](c: char) -> (r: bool)
    ensures
        r == unicode_whitespace(c),
;

/// Characters a subscriber name must not contain.
pub open spec fn forbidden_name_char(c: char) -> bool {
    ||| c == '/'
    ||| c == '('
    ||| c == ')'
    ||| c == '"'
    ||| c == '<'
    ||| c == '>'
    ||| c == '\\'
    ||| c == '{'
    ||| c == '}'
}

/// A name made only of whitespace (or empty) is blank.
pub open spec fn blank(s: Seq<char>) -> bool {
    forall|i: int| 0 <= i < s.len() ==> unicode_whitespace(#[trigger] s[i])
}

/// The longest accepted name, in characters.
pub open spec fn max_name_len() -> int {
    256
}

/// A name is valid when it is not blank, fits the length bound, and
/// contains no forbidden character.
pub open spec fn valid_subscriber_name(s: Seq<char>) -> bool {
    &&& !blank(s)
    &&& s.len() <= max_name_len()
    &&& forall|i: int| 0 <= i < s.len() ==> !forbidden_name_char(#[trigger] s[i])
}

/// A validated subscriber name.  Values of this type always satisfy
/// [`valid_subscriber_name`].
pub struct SubscriberName {
    name: String,
}

impl View for SubscriberName {
    type V = Seq<char>;

    closed spec fn view(&self) -> Seq<char> {
        self.name@
    }
}

impl SubscriberName {
    /// Every constructed name is valid.
    pub closed spec fn wf(&self) -> bool {
        valid_subscriber_name(self.name@)
    }

    /// Accepts exactly the strings that [`valid_subscriber_name`] allows;
    /// an accepted name carries the given string unchanged.
    pub fn try_from(value: String) -> (r: Result<SubscriberName, String>)
        ensures
            r matches Ok(n) ==> n@ == value@ && n.wf(),
            r is Ok <==> valid_subscriber_name(value@),
    {
        let text = value.as_str();
        let n = text.unicode_len();
        if n > 256 {
            return Err(String::from_str("invalid subscriber name"));
        }
        let mut all_whitespace = true;
        let mut has_forbidden = false;
        let mut i: usize = 0;
        while i < n
            invariant
                n == text@.len(),
                0 <= i <= n,
                all_whitespace <==> (forall|j: int|
                    0 <= j < i ==> unicode_whitespace(#[trigger] text@[j])),
                has_forbidden <==> (exists|j: int|
                    0 <= j < i && forbidden_name_char(#[trigger] text@[j])),
            decreases n - i,
        {
            let c = text.get_char(i);
            if !c.is_whitespace() {
                all_whitespace = false;
            }
            if c == '/' || c == '(' || c == ')' || c == '"' || c == '<' || c == '>' || c == '\\'
                || c == '{' || c == '}' {
                has_forbidden = true;
            }
            i = i + 1;
        }
        if all_whitespace || has_forbidden {
            return Err(String::from_str("invalid subscriber name"));
        }
        Ok(SubscriberName { name: value })
    }

    /// The name's text.
    pub fn as_ref(&self) -> (r: &str)
        ensures
            r@ == self@,
    {
        self.name.as_str()
    }
}

} // verus!
