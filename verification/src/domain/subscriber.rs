//! Subscribers and the directory that delivery fan-out reads.

use vstd::prelude::*;

use crate::domain::subscriber_email::SubscriberEmail;
use crate::domain::subscriber_name::SubscriberName;

verus! {

/// A validated signup payload: a display name and an address.
pub struct Subscriber {
    pub name: SubscriberName,
    pub email: SubscriberEmail,
}

/// The lifecycle state of a subscription.
#[derive(Clone, Copy, PartialEq, Eq, Structural, Debug)]
pub enum SubscriberStatus {
    Confirmed,
    PendingConfirmation,
}

impl SubscriberStatus {
    /// The status as it is stored in the subscriptions table.
    pub fn as_str(&self) -> (r: &'static str)
        ensures
            *self is Confirmed ==> r@ == "confirmed"@,
            *self is PendingConfirmation ==> r@ == "pending_confirmation"@,
    {
        match self {
            SubscriberStatus::Confirmed => "confirmed",
            SubscriberStatus::PendingConfirmation => "pending_confirmation",
        }
    }
}

/// Mathematical image of one directory row.
#[verifier::ext_equal]
pub ghost struct SubscriberRowView {
    pub email: Seq<char>,
    pub status: SubscriberStatus,
}

/// One row of the subscriber directory: a stored address (possibly
/// malformed, as stored data can be) and its subscription status.
pub struct SubscriberRow {
    pub email: String,
    pub status: SubscriberStatus,
}

impl View for SubscriberRow {
    type V = SubscriberRowView;

    open spec fn view(&self) -> SubscriberRowView {
        SubscriberRowView { email: self.email@, status: self.status }
    }
}

/// Is some row of `rows` stored under `email`?
pub open spec fn has_email(rows: Seq<SubscriberRowView>, email: Seq<char>) -> bool {
    exists|i: int| 0 <= i < rows.len() && #[trigger] rows[i].email == email
}

/// No two rows share an address.
pub open spec fn distinct_emails(rows: Seq<SubscriberRowView>) -> bool {
    forall|i: int, j: int|
        0 <= i < rows.len() && 0 <= j < rows.len() && i != j ==> rows[i].email != rows[j].email
}

/// The addresses of the rows whose status is confirmed, in order.
pub open spec fn confirmed_emails(rows: Seq<SubscriberRowView>) -> Seq<Seq<char>>
    decreases rows.len(),
{
    if rows.len() == 0 {
        Seq::empty()
    } else if rows.last().status is Confirmed {
        confirmed_emails(rows.drop_last()).push(rows.last().email)
    } else {
        confirmed_emails(rows.drop_last())
    }
}

/// Every confirmed address is the address of some row.
pub proof fn lemma_confirmed_emails_members(rows: Seq<SubscriberRowView>)
    ensures
        forall|j: int|
            0 <= j < confirmed_emails(rows).len() ==> exists|i: int|
                0 <= i < rows.len() && #[trigger] confirmed_emails(rows)[j] == rows[i].email,
    decreases rows.len(),
{
    if rows.len() > 0 {
        lemma_confirmed_emails_members(rows.drop_last());
        let sub = confirmed_emails(rows.drop_last());
        assert forall|j: int| 0 <= j < confirmed_emails(rows).len() implies exists|i: int|
            0 <= i < rows.len() && #[trigger] confirmed_emails(rows)[j] == rows[i].email by {
            if j < sub.len() {
                let i = choose|i: int|
                    0 <= i < rows.drop_last().len() && sub[j] == rows.drop_last()[i].email;
                assert(confirmed_emails(rows)[j] == rows[i].email);
            } else {
                assert(confirmed_emails(rows)[j] == rows[rows.len() - 1].email);
            }
        }
    }
}

/// In a directory without duplicate addresses the confirmed addresses are
/// pairwise distinct.
pub proof fn lemma_confirmed_emails_distinct(rows: Seq<SubscriberRowView>)
    requires
        distinct_emails(rows),
    ensures
        forall|a: int, b: int|
            0 <= a < confirmed_emails(rows).len() && 0 <= b < confirmed_emails(rows).len() && a != b
                ==> confirmed_emails(rows)[a] != confirmed_emails(rows)[b],
    decreases rows.len(),
{
    if rows.len() > 0 {
        assert(distinct_emails(rows.drop_last()));
        lemma_confirmed_emails_distinct(rows.drop_last());
        lemma_confirmed_emails_members(rows.drop_last());
        let sub = confirmed_emails(rows.drop_last());
        let out = confirmed_emails(rows);
        if rows.last().status is Confirmed {
            assert forall|a: int, b: int|
                0 <= a < out.len() && 0 <= b < out.len() && a != b implies out[a] != out[b] by {
                if a < sub.len() && b < sub.len() {
                    assert(sub[a] != sub[b]);
                } else if a < sub.len() {
                    let i = choose|i: int|
                        0 <= i < rows.drop_last().len() && sub[a] == rows.drop_last()[i].email;
                    assert(out[b] == rows[rows.len() - 1].email);
                    assert(rows[i].email != rows[rows.len() - 1].email);
                } else {
                    let i = choose|i: int|
                        0 <= i < rows.drop_last().len() && sub[b] == rows.drop_last()[i].email;
                    assert(out[a] == rows[rows.len() - 1].email);
                    assert(rows[i].email != rows[rows.len() - 1].email);
                }
            }
        }
    }
}

/// The directory with the subscription under `email` confirmed; every
/// other row is untouched.
pub open spec fn confirm_email(rows: Seq<SubscriberRowView>, email: Seq<char>) -> Seq<
    SubscriberRowView,
> {
    Seq::new(
        rows.len(),
        |i: int|
            if rows[i].email == email {
                SubscriberRowView { status: SubscriberStatus::Confirmed, ..rows[i] }
            } else {
                rows[i]
            },
    )
}

/// The subscriber directory: the durable table of subscriptions, unique
/// per address.
pub struct SubscriberDirectory {
    rows: Vec<SubscriberRow>,
}

impl View for SubscriberDirectory {
    type V = Seq<SubscriberRowView>;

    closed spec fn view(&self) -> Seq<SubscriberRowView> {
        Seq::new(self.rows@.len(), |i: int| self.rows@[i]@)
    }
}

impl SubscriberDirectory {
    /// The directory's invariant: no two rows share an address.
    pub open spec fn wf(&self) -> bool {
        distinct_emails(self@)
    }

    /// An empty directory.
    pub fn new() -> (r: SubscriberDirectory)
        ensures
            r@ == Seq::<SubscriberRowView>::empty(),
            r.wf(),
    {
        let r = SubscriberDirectory { rows: Vec::new() };
        proof {
            assert(r@ =~= Seq::<SubscriberRowView>::empty());
        }
        r
    }

    /// Is some row stored under `email`?
    pub fn contains_email(&self, email: &String) -> (r: bool)
        ensures
            r == has_email(self@, email@),
    {
        let mut i: usize = 0;
        while i < self.rows.len()
            invariant
                0 <= i <= self.rows.len(),
                self@.len() == self.rows@.len(),
                forall|j: int| 0 <= j < i ==> #[trigger] self@[j].email != email@,
            decreases self.rows.len() - i,
        {
            if self.rows[i].email == *email {
                proof {
                    assert(self@[i as int].email == email@);
                }
                return true;
            }
            i = i + 1;
        }
        false
    }

    /// Inserts a row for `email` with `status` unless one already exists;
    /// reports whether the row was inserted.
    pub fn insert_subscriber(&mut self, email: String, status: SubscriberStatus) -> (added: bool)
        requires
            old(self).wf(),
        ensures
            final(self).wf(),
            added <==> !has_email(old(self)@, email@),
            added ==> final(self)@ == old(self)@.push(
                SubscriberRowView { email: email@, status },
            ),
            !added ==> final(self)@ == old(self)@,
    {
        if self.contains_email(&email) {
            return false;
        }
        let ghost pre = self@;
        self.rows.push(SubscriberRow { email, status });
        proof {
            assert(self@ =~= pre.push(self@[pre.len() as int]));
        }
        true
    }

    /// Marks the subscription stored under `email` confirmed; a missing
    /// address changes nothing.
    pub fn confirm_subscription(&mut self, email: &String) -> (r: ())
        requires
            old(self).wf(),
        ensures
            final(self).wf(),
            final(self)@ == confirm_email(old(self)@, email@),
    {
        let ghost pre = self@;
        let mut i: usize = 0;
        while i < self.rows.len()
            invariant
                pre == old(self)@,
                0 <= i <= self.rows.len(),
                self@.len() == self.rows@.len(),
                self@.len() == pre.len(),
                forall|j: int| 0 <= j < i ==> self@[j] == confirm_email(pre, email@)[j],
                forall|j: int| i <= j < pre.len() ==> self@[j] == pre[j],
            decreases self.rows.len() - i,
        {
            let ghost before = self@;
            let email_matches = self.rows[i].email == *email;
            if email_matches {
                self.rows[i].status = SubscriberStatus::Confirmed;
            }
            proof {
                assert forall|j: int|
                    0 <= j < before.len() && j != i as int implies self@[j] == before[j] by {}
                if email_matches {
                    assert(before[i as int].email == email@);
                    assert(self@[i as int].email == before[i as int].email);
                    assert(self@[i as int].status is Confirmed);
                    assert(self@[i as int] =~= confirm_email(pre, email@)[i as int]);
                } else {
                    assert(self@[i as int] =~= confirm_email(pre, email@)[i as int]);
                }
                assert forall|j: int| 0 <= j < i as int + 1 implies self@[j] == confirm_email(
                    pre,
                    email@,
                )[j] by {
                    if j < i as int {
                        assert(self@[j] == before[j]);
                        assert(before[j] == confirm_email(pre, email@)[j]);
                    }
                }
            }
            i = i + 1;
        }
        proof {
            assert(self@ =~= confirm_email(pre, email@));
            assert forall|a: int, b: int|
                0 <= a < self@.len() && 0 <= b < self@.len() && a != b implies self@[a].email
                != self@[b].email by {
                assert(self@[a].email == pre[a].email);
                assert(self@[b].email == pre[b].email);
            }
        }
    }

    /// The addresses whose subscription is confirmed, in directory order.
    pub fn get_confirmed_subscribers(&self) -> (r: Vec<String>)
        ensures
            r@.map_values(|s: String| s@) == confirmed_emails(self@),
    {
        let mut out: Vec<String> = Vec::new();
        let mut i: usize = 0;
        while i < self.rows.len()
            invariant
                0 <= i <= self.rows.len(),
                self@.len() == self.rows@.len(),
                out@.map_values(|s: String| s@) =~= confirmed_emails(self@.take(i as int)),
            decreases self.rows.len() - i,
        {
            proof {
                assert(self@.take(i + 1).drop_last() =~= self@.take(i as int));
                assert(self@.take(i + 1).drop_last() == self@.take(i as int));
                assert(self@.take(i + 1).last() == self@[i as int]);
            }
            match self.rows[i].status {
                SubscriberStatus::Confirmed => {
                    out.push(self.rows[i].email.clone());
                },
                SubscriberStatus::PendingConfirmation => {},
            }
            i = i + 1;
            proof {
                assert(out@.map_values(|s: String| s@) =~= confirmed_emails(
                    self@.take(i as int),
                ));
            }
        }
        proof {
            assert(self@.take(i as int) =~= self@);
            assert(self@.take(i as int) == self@);
        }
        out
    }
}

} // verus!
