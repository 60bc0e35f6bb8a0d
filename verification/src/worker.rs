//! The harvester: it parses a job payload into an experience id, turns the
//! outcome of the remote fetch into an idempotent store write, and reports a
//! binary status back to the coordinator.

use vstd::prelude::*;
use crate::experience_code::{encoding_of, ExperienceCode, NonPositiveError};
use crate::numbers::{parse_i32, parse_i32_spec, ParseNumberError};
use crate::record::{code_fits_id, record_built_from, Experience, PlaygroundInfo, Timestamp};
use crate::store::{unique_ids, upsert_rows, ExperienceStore};
use crate::text::{find_char_from, lemma_find_char_pin};

verus! {

/// Failure of the remote fetch, or of the session it needs; the cause is
/// logged locally and never travels upstream.
#[derive(Debug, Clone, Copy, PartialEq, Eq, Structural)]
pub struct RemoteError;

/// A job payload the harvester cannot take on.
#[derive(Debug, Clone, Copy, PartialEq, Eq, Structural)]
pub enum JobError {
    BadNumber(ParseNumberError),
    NonPositive(NonPositiveError),
}

/// Reads a job payload: the decimal experience id, which must be strictly
/// positive, together with its share code.
pub fn parse_job(payload: &str) -> (r: Result<(i32, ExperienceCode), JobError>)
    ensures
        parse_i32_spec(payload@) matches Err(e) ==> r == Err::<(i32, ExperienceCode), JobError>(
            JobError::BadNumber(e),
        ),
        parse_i32_spec(payload@) matches Ok(v) ==> ({
            &&& v <= 0 ==> r == Err::<(i32, ExperienceCode), JobError>(
                JobError::NonPositive(NonPositiveError { value: v }),
            )
            &&& v > 0 ==> (r matches Ok(p) && p.0 == v && p.1@ == encoding_of(v as nat))
        }),
{
    let id: i32 = match parse_i32(payload) {
        Ok(v) => v,
        Err(e) => {
            return Err(JobError::BadNumber(e));
        },
    };
    match ExperienceCode::from_i32(id) {
        Ok(code) => Ok((id, code)),
        Err(e) => Err(JobError::NonPositive(e)),
    }
}

/// Takes the outcome of the remote fetch for one code: a returned record is
/// upserted under its decoded id, an absent record writes nothing, and any
/// failure — of the fetch or of building the row — makes the job an error.
/// The answer is the `okay` flag of the status to publish.
pub fn check_experience(
    store: &mut ExperienceStore,
    e_code: &ExperienceCode,
    fetch: Result<Option<PlaygroundInfo>, RemoteError>,
    now: Timestamp,
) -> (okay: bool)
    ensures
        fetch is Err ==> !okay && *final(store) == *old(store),
        fetch matches Ok(None) ==> okay && *final(store) == *old(store),
        fetch matches Ok(Some(p)) ==> ({
            &&& !code_fits_id(e_code@) ==> !okay && *final(store) == *old(store)
            &&& code_fits_id(e_code@) ==> okay && final(store).cursor == old(store).cursor
                && (exists|e: Experience|
                record_built_from(e, e_code@, p, now) && final(store).rows@ == upsert_rows(
                    old(store).rows@,
                    e,
                ))
        }),
        unique_ids(old(store).rows@) ==> unique_ids(final(store).rows@),
{
    match fetch {
        Err(_) => false,
        Ok(None) => true,
        Ok(Some(playground)) => {
            match Experience::init_standalone(e_code.duplicate(), playground, now) {
                Ok(record) => {
                    let ghost built: Experience = record;
                    store.add_or_update_experience(record);
                    proof {
                        assert(record_built_from(built, e_code@, playground, now));
                        assert(store.rows@ == upsert_rows(old(store).rows@, built));
                    }
                    true
                },
                Err(_) => false,
            }
        },
    }
}

/// The status payload for a job: the id exactly as the payload carried it,
/// then `;okay` or `;error`.
pub fn status_payload(id_text: &str, okay: bool) -> (s: String)
    ensures
        s@ == id_text@ + seq![';'] + (if okay {
            "okay"@
        } else {
            "error"@
        }),
{
    let word: &str = if okay {
        "okay"
    } else {
        "error"
    };
    let s: String = String::from_str(id_text).concat(";").concat(word);
    proof {
        reveal_strlit(";");
        assert(s@ =~= id_text@ + seq![';'] + word@);
    }
    s
}

/// The one-time boot message a harvester sends to the status collector.
pub fn startup_status() -> (s: &'static str)
    ensures
        s@ == "startup;ok"@,
{
    "startup;ok"
}

/// Law: a status the harvester publishes for an id free of separators parses
/// back to that very id and outcome word.
pub proof fn lemma_status_round_trip(id_text: Seq<char>, okay: bool)
    requires
        forall|j: int| 0 <= j < id_text.len() ==> id_text[j] != ';',
    ensures
        ({
            let s = id_text + seq![';'] + (if okay {
                "okay"@
            } else {
                "error"@
            });
            let k = find_char_from(s, 0, ';');
            &&& k == id_text.len()
            &&& s.take(k) == id_text
            &&& s.subrange(k + 1, find_char_from(s, k + 1, ';')) == (if okay {
                "okay"@
            } else {
                "error"@
            })
        }),
{
    reveal_strlit("okay");
    reveal_strlit("error");
    let word = if okay {
        "okay"@
    } else {
        "error"@
    };
    let s = id_text + seq![';'] + word;
    assert(forall|j: int| 0 <= j < id_text.len() ==> s[j] == id_text[j]);
    assert(s[id_text.len() as int] == ';');
    lemma_find_char_pin(s, 0, id_text.len() as int, ';');
    assert(s.take(id_text.len() as int) =~= id_text);
    assert(forall|j: int| 0 <= j < word.len() ==> word[j] != ';');
    assert(forall|j: int|
        id_text.len() + 1 <= j < s.len() ==> s[j] == word[j - id_text.len() - 1]);
    lemma_find_char_pin(s, id_text.len() as int + 1, s.len() as int, ';');
    assert(s.subrange(id_text.len() as int + 1, s.len() as int) =~= word);
}

} // verus!
