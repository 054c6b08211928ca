//! Subscribing and confirming: a signup stores a pending subscription
//! with a fresh confirmation token, and presenting the token later marks
//! the subscription confirmed.  Only subscriptions confirmed by the time
//! an issue is published are fanned out; later confirmations are not
//! retroactively included.

use vstd::prelude::*;

use crate::domain::subscriber::{confirm_email, has_email, SubscriberDirectory, Subscriber,
    SubscriberStatus, SubscriberRowView};

verus! {

/// The confirmation request's payload.
pub struct Params {
    pub token: String,
}

/// Why a signup failed.
#[derive(Debug)]
pub enum SubscriptionError {
    UnexpectedError(String),
}

impl SubscriptionError {
    /// The HTTP status code this error maps to.
    pub fn status_code(&self) -> (r: u16)
        ensures
            r == 500,
    {
        match self {
            SubscriptionError::UnexpectedError(_) => 500,
        }
    }
}

/// Mathematical image of one stored confirmation token.
#[verifier::ext_equal]
pub ghost struct TokenView {
    pub subscription_token: Seq<char>,
    pub subscriber_email: Seq<char>,
}

/// One stored confirmation token and the address it confirms.
pub struct SubscriptionToken {
    pub subscription_token: String,
    pub subscriber_email: String,
}

impl View for SubscriptionToken {
    type V = TokenView;

    open spec fn view(&self) -> TokenView {
        TokenView {
            subscription_token: self.subscription_token@,
            subscriber_email: self.subscriber_email@,
        }
    }
}

/// Is some token row stored under `token`?
pub open spec fn has_token(s: Seq<TokenView>, token: Seq<char>) -> bool {
    exists|i: int| 0 <= i < s.len() && #[trigger] s[i].subscription_token == token
}

/// The address the token confirms; meaningful when [`has_token`] holds
/// and the store is well formed, which makes the token unique.
pub open spec fn the_token_email(s: Seq<TokenView>, token: Seq<char>) -> Seq<char> {
    s[choose|i: int| 0 <= i < s.len() && #[trigger] s[i].subscription_token == token]
        .subscriber_email
}

/// No two rows share a token.
pub open spec fn distinct_tokens(s: Seq<TokenView>) -> bool {
    forall|i: int, j: int|
        0 <= i < s.len() && 0 <= j < s.len() && i != j ==> s[i].subscription_token
            != s[j].subscription_token
}

/// The durable table of confirmation tokens, unique per token.
pub struct SubscriptionTokenStore {
    tokens: Vec<SubscriptionToken>,
}

impl View for SubscriptionTokenStore {
    type V = Seq<TokenView>;

    closed spec fn view(&self) -> Seq<TokenView> {
        Seq::new(self.tokens@.len(), |i: int| self.tokens@[i]@)
    }
}

impl SubscriptionTokenStore {
    /// The store's invariant: no two rows share a token.
    pub open spec fn wf(&self) -> bool {
        distinct_tokens(self@)
    }

    /// An empty store.
    pub fn new() -> (r: SubscriptionTokenStore)
        ensures
            r@ == Seq::<TokenView>::empty(),
            r.wf(),
    {
        let r = SubscriptionTokenStore { tokens: Vec::new() };
        proof {
            assert(r@ =~= Seq::<TokenView>::empty());
        }
        r
    }

    /// Is some token row stored under `token`?
    pub fn contains_token(&self, token: &String) -> (r: bool)
        ensures
            r == has_token(self@, token@),
    {
        let mut i: usize = 0;
        while i < self.tokens.len()
            invariant
                0 <= i <= self.tokens.len(),
                self@.len() == self.tokens@.len(),
                forall|j: int| 0 <= j < i ==> #[trigger] self@[j].subscription_token != token@,
            decreases self.tokens.len() - i,
        {
            if self.tokens[i].subscription_token == *token {
                proof {
                    assert(self@[i as int].subscription_token == token@);
                }
                return true;
            }
            i = i + 1;
        }
        false
    }

    /// Stores a fresh confirmation token for an address.
    pub fn store_token(&mut self, subscription_token: String, subscriber_email: String) -> (r: ())
        requires
            old(self).wf(),
            !has_token(old(self)@, subscription_token@),
        ensures
            final(self).wf(),
            final(self)@ == old(self)@.push(
                TokenView {
                    subscription_token: subscription_token@,
                    subscriber_email: subscriber_email@,
                },
            ),
    {
        let ghost pre = self@;
        let ghost tv = TokenView {
            subscription_token: subscription_token@,
            subscriber_email: subscriber_email@,
        };
        self.tokens.push(SubscriptionToken { subscription_token, subscriber_email });
        proof {
            assert(self@ =~= pre.push(tv));
            assert forall|a: int, b: int|
                0 <= a < self@.len() && 0 <= b < self@.len() && a != b implies self@[a]
                .subscription_token != self@[b].subscription_token by {
                if a < pre.len() && b < pre.len() {
                    assert(pre[a].subscription_token != pre[b].subscription_token);
                } else if a < pre.len() {
                    assert(self@[a].subscription_token != tv.subscription_token);
                } else {
                    assert(self@[b].subscription_token != tv.subscription_token);
                }
            }
        }
    }

    /// The address the stored token confirms, if the token is known.
    pub fn match_subscription(&self, token: &String) -> (r: Option<String>)
        requires
            self.wf(),
        ensures
            match r {
                Some(email) => has_token(self@, token@) && email@ == the_token_email(
                    self@,
                    token@,
                ),
                None => !has_token(self@, token@),
            },
    {
        let mut i: usize = 0;
        while i < self.tokens.len()
            invariant
                self.wf(),
                0 <= i <= self.tokens.len(),
                self@.len() == self.tokens@.len(),
                forall|j: int| 0 <= j < i ==> #[trigger] self@[j].subscription_token != token@,
            decreases self.tokens.len() - i,
        {
            if self.tokens[i].subscription_token == *token {
                proof {
                    assert(self@[i as int].subscription_token == token@);
                    let j = choose|j: int|
                        0 <= j < self@.len() && #[trigger] self@[j].subscription_token == token@;
                    if j != i {
                        assert(self@[i as int].subscription_token != self@[j].subscription_token);
                        assert(false);
                    }
                }
                return Some(self.tokens[i].subscriber_email.clone());
            }
            i = i + 1;
        }
        None
    }
}

/// Is `c` an ASCII digit or letter?
pub open spec fn ascii_alphanumeric(c: char) -> bool {
    ||| 48 <= c as u32 <= 57
    ||| 65 <= c as u32 <= 90
    ||| 97 <= c as u32 <= 122
}

/// Relies on rand's Alphanumeric distribution and
/// SampleString::sample_string: exactly 25 characters, each an ASCII
/// digit or letter.  Which characters come back is random, so nothing
/// more is promised.
#[verifier::external_body]
fn generate_token() -> (r: String)
    ensures
        r@.len() == 25,
        forall|i: int| 0 <= i < r@.len() ==> ascii_alphanumeric(#[trigger] r@[i]),
{
    rand::distr::SampleString::sample_string(&rand::distr::Alphanumeric, &mut rand::rng(), 25)
}

/// One signup with the confirmation token supplied by the caller: stores
/// a pending subscription and its token together, or — on a duplicate
/// address or token, which the store's uniqueness would reject — fails
/// with both stores unchanged.  Sending the confirmation email is the
/// caller's I/O.
pub fn subscript_with_token(
    directory: &mut SubscriberDirectory,
    tokens: &mut SubscriptionTokenStore,
    user: &Subscriber,
    token: String,
) -> (r: Result<String, SubscriptionError>)
    requires
        old(directory).wf(),
        old(tokens).wf(),
    ensures
        final(directory).wf(),
        final(tokens).wf(),
        if has_email(old(directory)@, user.email@) || has_token(old(tokens)@, token@) {
            &&& r is Err
            &&& final(directory)@ == old(directory)@
            &&& final(tokens)@ == old(tokens)@
        } else {
            &&& r matches Ok(t) && t@ == token@
            &&& final(directory)@ == old(directory)@.push(
                SubscriberRowView {
                    email: user.email@,
                    status: SubscriberStatus::PendingConfirmation,
                },
            )
            &&& final(tokens)@ == old(tokens)@.push(
                TokenView { subscription_token: token@, subscriber_email: user.email@ },
            )
        },
{
    if directory.contains_email(user.email.as_string()) {
        return Err(
            SubscriptionError::UnexpectedError(
                String::from_str("Failed to insert new subscriber in the database."),
            ),
        );
    }
    if tokens.contains_token(&token) {
        return Err(
            SubscriptionError::UnexpectedError(
                String::from_str(
                    "Failed to store the confirmation token for a new subscriber.",
                ),
            ),
        );
    }
    let email = user.email.as_string().clone();
    let added = directory.insert_subscriber(
        user.email.as_string().clone(),
        SubscriberStatus::PendingConfirmation,
    );
    proof {
        assert(added);
    }
    let token_copy = token.clone();
    tokens.store_token(token, email);
    Ok(token_copy)
}

/// One signup: as [`subscript_with_token`], with the token freshly
/// generated inside.  Success hands back the stored token, so that the
/// caller can send the confirmation email; failure — a duplicate
/// address, or the generated token colliding with a stored one — leaves
/// both stores unchanged, and a duplicate address always fails.
pub fn subscript(
    directory: &mut SubscriberDirectory,
    tokens: &mut SubscriptionTokenStore,
    user: &Subscriber,
) -> (r: Result<String, SubscriptionError>)
    requires
        old(directory).wf(),
        old(tokens).wf(),
    ensures
        final(directory).wf(),
        final(tokens).wf(),
        match r {
            Ok(t) => {
                &&& t@.len() == 25
                &&& forall|i: int| 0 <= i < t@.len() ==> ascii_alphanumeric(#[trigger] t@[i])
                &&& !has_email(old(directory)@, user.email@)
                &&& !has_token(old(tokens)@, t@)
                &&& final(directory)@ == old(directory)@.push(
                    SubscriberRowView {
                        email: user.email@,
                        status: SubscriberStatus::PendingConfirmation,
                    },
                )
                &&& final(tokens)@ == old(tokens)@.push(
                    TokenView { subscription_token: t@, subscriber_email: user.email@ },
                )
            },
            Err(_) => final(directory)@ == old(directory)@ && final(tokens)@ == old(tokens)@,
        },
        has_email(old(directory)@, user.email@) ==> r is Err,
        r is Err ==> has_email(old(directory)@, user.email@) || old(tokens)@.len() > 0,
{
    let token = generate_token();
    let ghost tv = token@;
    let r = subscript_with_token(directory, tokens, user, token);
    proof {
        if r is Err && !has_email(old(directory)@, user.email@) {
            let i = choose|i: int|
                0 <= i < old(tokens)@.len() && #[trigger] old(tokens)@[i].subscription_token
                    == tv;
            assert(old(tokens)@.len() > 0);
        }
    }
    r
}

/// One confirmation request: an unknown token is unauthorized and
/// changes nothing; a known token marks its subscription confirmed.  The
/// result is the HTTP status code the endpoint answers with.
pub fn confirm(
    directory: &mut SubscriberDirectory,
    tokens: &SubscriptionTokenStore,
    params: &Params,
) -> (r: u16)
    requires
        old(directory).wf(),
        tokens.wf(),
    ensures
        final(directory).wf(),
        !has_token(tokens@, params.token@) ==> r == 401 && final(directory)@ == old(directory)@,
        has_token(tokens@, params.token@) ==> r == 200 && final(directory)@ == confirm_email(
            old(directory)@,
            the_token_email(tokens@, params.token@),
        ),
{
    let subscriber_email = match tokens.match_subscription(&params.token) {
        Some(email) => email,
        None => {
            return 401;
        },
    };
    directory.confirm_subscription(&subscriber_email);
    200
}

} // verus!
