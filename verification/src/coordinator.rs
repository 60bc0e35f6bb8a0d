//! The coordinator: it sequences experience ids, publishes each as a job
//! payload, and advances the persisted cursor only when the status reported
//! back for an id is not an error.

use vstd::prelude::*;
use crate::numbers::{decimal_of, decimal_string};
use crate::store::ExperienceStore;
use crate::text::{find_char_from, lemma_find_char_from, scan_char};

verus! {

/// A status report that does not follow the `id;outcome` form.
#[derive(Debug, Clone, Copy, PartialEq, Eq, Structural)]
pub struct MalformedStatusError;

/// A parsed status report: the id it speaks of, as published, and the
/// outcome word.
#[derive(Debug)]
pub struct StatusMessage {
    pub experience_id: String,
    pub outcome: String,
}

/// The cursor after a status report: unchanged on an error outcome, advanced
/// by one on any other.
pub open spec fn advanced_cursor(current: int, outcome: Seq<char>) -> int {
    if outcome == "error"@ {
        current
    } else {
        current + 1
    }
}

/// Splits a status payload at its first `;` into the id part and the outcome
/// word (which runs to the next `;` or the end); a payload without a `;` is
/// malformed.
pub fn parse_status(payload: &str) -> (r: Result<StatusMessage, MalformedStatusError>)
    ensures
        ({
            let k = find_char_from(payload@, 0, ';');
            if k == payload@.len() {
                r is Err
            } else {
                r matches Ok(m) && m.experience_id@ == payload@.take(k) && m.outcome@
                    == payload@.subrange(k + 1, find_char_from(payload@, k + 1, ';'))
            }
        }),
{
    let n: usize = payload.unicode_len();
    let k: usize = scan_char(payload, 0, ';');
    proof {
        lemma_find_char_from(payload@, 0, ';');
    }
    if k == n {
        return Err(MalformedStatusError);
    }
    let m: usize = scan_char(payload, k + 1, ';');
    proof {
        lemma_find_char_from(payload@, k as int + 1, ';');
    }
    let experience_id: String = payload.substring_char(0, k).to_owned();
    let outcome: String = payload.substring_char(k + 1, m).to_owned();
    proof {
        assert(payload@.subrange(0, k as int) =~= payload@.take(k as int));
    }
    Ok(StatusMessage { experience_id, outcome })
}

/// The coordinator's in-memory position: the id it is currently trying.
#[derive(Debug, Clone, Copy, PartialEq, Eq, Structural)]
pub struct Coordinator {
    pub current: i32,
}

impl Coordinator {
    /// Resumes from the persisted cursor, initializing it where absent.
    pub fn startup(store: &mut ExperienceStore) -> (c: Coordinator)
        ensures
            final(store).rows@ == old(store).rows@,
            match old(store).cursor {
                Some(v) => c.current == v && final(store).cursor == old(store).cursor,
                None => c.current == 1 && final(store).cursor == Some(1i32),
            },
    {
        Coordinator { current: store.current_experience() }
    }

    /// The payload of the job for the id currently tried.
    pub fn next_job_payload(&self) -> (p: String)
        ensures
            p@ == decimal_of(self.current as int),
    {
        decimal_string(self.current)
    }

    /// Takes one status report: on any outcome but `error` the cursor
    /// advances by one and is persisted; on `error` it stays, so the same id
    /// is tried again.
    pub fn observe_status(&mut self, msg: &StatusMessage, store: &mut ExperienceStore)
        requires
            old(self).current < i32::MAX,
        ensures
            final(self).current as int == advanced_cursor(old(self).current as int, msg.outcome@),
            msg.outcome@ != "error"@ ==> final(store).rows@ == old(store).rows@
                && final(store).cursor == Some(final(self).current),
            msg.outcome@ == "error"@ ==> *final(store) == *old(store),
    {
        let error_word: String = String::from_str("error");
        if !(msg.outcome == error_word) {
            self.current = self.current + 1;
            store.set_current_experience(self.current);
        }
    }
}

/// Law: a non-error status for an id moves the cursor to the id after it,
/// and an error status leaves the cursor — and so the next published job —
/// at the very same id.
pub proof fn lemma_cursor_advance(current: int)
    ensures
        advanced_cursor(current, "okay"@) == current + 1,
        advanced_cursor(current, "error"@) == current,
{
    reveal_strlit("okay");
    reveal_strlit("error");
    assert("okay"@.len() == 4);
    assert("error"@.len() == 5);
}

} // verus!
