//! The fetched playground payload and the relational row built from it.
//!
//! A fetched playground is held as plain values: its display fields, optional
//! proto timestamps, an optional map rotation, and the raw serialized payload
//! handed over by the transport layer.  `Experience` is the row persisted for
//! one experience id.

use vstd::prelude::*;
use crate::experience_code::{
    strip_pad, first_invalid, code_value, is_symbol, lemma_first_invalid_bounds,
    lemma_code_value_nonneg, DecodeError, ExperienceCode,
};

verus! {

/// A point in time as seconds and nanoseconds since the epoch.
#[derive(Debug, Clone, Copy, PartialEq, Eq, Structural)]
pub struct Timestamp {
    pub seconds: i64,
    pub nanos: u32,
}

/// One entry of a playground's map rotation.
#[derive(Debug)]
pub struct MapRotationEntry {
    pub mapname: String,
    pub game_size: i32,
    pub mode: String,
}

/// The ordered map rotation of a playground.
#[derive(Debug)]
pub struct MapRotation {
    pub maps: Vec<MapRotationEntry>,
}

/// The payload the backend stores for a playground.
#[derive(Debug)]
pub struct OriginalPlayground {
    pub playground_name: String,
    pub playground_description: String,
    pub created_at: Option<Timestamp>,
    pub updated_at: Option<Timestamp>,
    pub map_rotation: Option<MapRotation>,
}

/// A fetched playground: the structured payload, if any, plus the raw
/// serialized forms of the whole response and of its tag and progression
/// parts.
#[derive(Debug)]
pub struct PlaygroundInfo {
    pub original_playground: Option<OriginalPlayground>,
    pub tags_json: String,
    pub progression_json: String,
    pub raw_json: String,
}

/// The row persisted for one experience id; extended fields fall back to
/// empty values where the payload does not carry them.
#[derive(Debug)]
pub struct Experience {
    pub experience_id: i32,
    pub share_code: String,
    pub playground_name: String,
    pub playground_description: String,
    pub playground_created_at: Timestamp,
    pub playground_updated_at: Timestamp,
    pub playground_data: String,
    pub tags: String,
    pub maps: Vec<Option<String>>,
    pub game_sizes: Vec<Option<i32>>,
    pub modes: Vec<Option<String>>,
    pub progression_mode: String,
    pub created_at: Timestamp,
    pub updated_at: Timestamp,
}

/// The name of a playground, or empty if the payload is absent.
pub open spec fn pg_name(p: PlaygroundInfo) -> Seq<char> {
    match p.original_playground {
        Some(o) => o.playground_name@,
        None => Seq::empty(),
    }
}

/// The description of a playground, or empty if the payload is absent.
pub open spec fn pg_description(p: PlaygroundInfo) -> Seq<char> {
    match p.original_playground {
        Some(o) => o.playground_description@,
        None => Seq::empty(),
    }
}

/// The creation timestamp of a playground, or the epoch where missing.
pub open spec fn pg_created(p: PlaygroundInfo) -> Timestamp {
    match p.original_playground {
        Some(o) => match o.created_at {
            Some(t) => t,
            None => Timestamp { seconds: 0, nanos: 0 },
        },
        None => Timestamp { seconds: 0, nanos: 0 },
    }
}

/// The update timestamp of a playground, or the epoch where missing.
pub open spec fn pg_updated(p: PlaygroundInfo) -> Timestamp {
    match p.original_playground {
        Some(o) => match o.updated_at {
            Some(t) => t,
            None => Timestamp { seconds: 0, nanos: 0 },
        },
        None => Timestamp { seconds: 0, nanos: 0 },
    }
}

/// The map rotation entries of a playground, or empty where missing.
pub open spec fn pg_rotation(p: PlaygroundInfo) -> Seq<MapRotationEntry> {
    match p.original_playground {
        Some(o) => match o.map_rotation {
            Some(r) => r.maps@,
            None => Seq::empty(),
        },
        None => Seq::empty(),
    }
}

/// Two rows that agree on every column, comparing the nullable array columns
/// by their contents.
pub open spec fn same_row(a: Experience, b: Experience) -> bool {
    &&& a.experience_id == b.experience_id
    &&& a.share_code == b.share_code
    &&& a.playground_name == b.playground_name
    &&& a.playground_description == b.playground_description
    &&& a.playground_created_at == b.playground_created_at
    &&& a.playground_updated_at == b.playground_updated_at
    &&& a.playground_data == b.playground_data
    &&& a.tags == b.tags
    &&& a.maps@ == b.maps@
    &&& a.game_sizes@ == b.game_sizes@
    &&& a.modes@ == b.modes@
    &&& a.progression_mode == b.progression_mode
    &&& a.created_at == b.created_at
    &&& a.updated_at == b.updated_at
}

/// Whether a share code decodes to an id that fits the row's integer column.
pub open spec fn code_fits_id(code: Seq<char>) -> bool {
    let t = strip_pad(code);
    &&& first_invalid(t) == t.len()
    &&& 0 <= code_value(t) <= i32::MAX as int
}

/// The full row built for `code` from payload `p` at time `now`: decoded id,
/// the code itself, the payload's display fields and timestamps (empty or
/// epoch where absent), the raw serialized columns, the rotation unzipped
/// into its three array columns, and both row timestamps set to `now`.
pub open spec fn record_built_from(
    e: Experience,
    code: Seq<char>,
    p: PlaygroundInfo,
    now: Timestamp,
) -> bool {
    let rot = pg_rotation(p);
    &&& e.experience_id as int == code_value(strip_pad(code))
    &&& e.share_code@ == code
    &&& e.playground_name@ == pg_name(p)
    &&& e.playground_description@ == pg_description(p)
    &&& e.playground_created_at == pg_created(p)
    &&& e.playground_updated_at == pg_updated(p)
    &&& e.playground_data@ == p.raw_json@
    &&& e.tags@ == p.tags_json@
    &&& e.progression_mode@ == p.progression_json@
    &&& e.created_at == now
    &&& e.updated_at == now
    &&& e.maps@.len() == rot.len()
    &&& e.game_sizes@.len() == rot.len()
    &&& e.modes@.len() == rot.len()
    &&& forall|i: int| 0 <= i < rot.len() ==> e.maps@[i] == Some(rot[i].mapname)
    &&& forall|i: int| 0 <= i < rot.len() ==> e.game_sizes@[i] == Some(rot[i].game_size)
    &&& forall|i: int| 0 <= i < rot.len() ==> e.modes@[i] == Some(rot[i].mode)
}

/// Copies an optional string.
fn clone_opt_string(x: &Option<String>) -> (r: Option<String>)
    ensures
        r == *x,
{
    match x {
        Some(s) => Some(s.clone()),
        None => None,
    }
}

/// Copies a vector of optional strings.
fn clone_opt_string_vec(v: &Vec<Option<String>>) -> (r: Vec<Option<String>>)
    ensures
        r@ == v@,
{
    let mut r: Vec<Option<String>> = Vec::new();
    let mut i: usize = 0;
    while i < v.len()
        invariant
            i <= v.len(),
            r@ =~= v@.take(i as int),
        decreases v.len() - i,
    {
        r.push(clone_opt_string(&v[i]));
        proof {
            assert(r@ =~= v@.take(i as int + 1));
        }
        i += 1;
    }
    proof {
        assert(v@.take(v@.len() as int) =~= v@);
    }
    r
}

/// Copies a vector of optional integers.
fn clone_opt_i32_vec(v: &Vec<Option<i32>>) -> (r: Vec<Option<i32>>)
    ensures
        r@ == v@,
{
    let mut r: Vec<Option<i32>> = Vec::new();
    let mut i: usize = 0;
    while i < v.len()
        invariant
            i <= v.len(),
            r@ =~= v@.take(i as int),
        decreases v.len() - i,
    {
        r.push(v[i]);
        proof {
            assert(r@ =~= v@.take(i as int + 1));
        }
        i += 1;
    }
    proof {
        assert(v@.take(v@.len() as int) =~= v@);
    }
    r
}

impl Experience {
    /// A copy of the row that agrees on every column.
    pub fn duplicate(&self) -> (r: Experience)
        ensures
            same_row(r, *self),
    {
        Experience {
            experience_id: self.experience_id,
            share_code: self.share_code.clone(),
            playground_name: self.playground_name.clone(),
            playground_description: self.playground_description.clone(),
            playground_created_at: self.playground_created_at,
            playground_updated_at: self.playground_updated_at,
            playground_data: self.playground_data.clone(),
            tags: self.tags.clone(),
            maps: clone_opt_string_vec(&self.maps),
            game_sizes: clone_opt_i32_vec(&self.game_sizes),
            modes: clone_opt_string_vec(&self.modes),
            progression_mode: self.progression_mode.clone(),
            created_at: self.created_at,
            updated_at: self.updated_at,
        }
    }

    /// Builds the full row for a fetched playground: the id is the decoded
    /// share code, display fields and timestamps come from the payload (empty
    /// or epoch where absent), the rotation is unzipped into its three
    /// columns, and both row timestamps are set to `now`.
    pub fn init_standalone(experience_code: ExperienceCode, playground: PlaygroundInfo, now: Timestamp) -> (r:
        Result<Experience, DecodeError>)
        ensures
            ({
                let t = strip_pad(experience_code@);
                let fi = first_invalid(t);
                let pv = code_value(t.take(fi));
                &&& (r is Ok <==> code_fits_id(experience_code@))
                &&& (pv > usize::MAX as int || (fi == t.len() && code_value(t) > i32::MAX as int))
                    ==> r == Err::<Experience, DecodeError>(DecodeError::ValueOverflow)
                &&& (pv <= usize::MAX as int && fi < t.len()) ==> r == Err::<
                    Experience,
                    DecodeError,
                >(DecodeError::UnknownSymbol { symbol: t[fi], position: fi as usize })
            }),
            r matches Ok(e) ==> record_built_from(e, experience_code@, playground, now),
    {
        proof {
            let t = strip_pad(experience_code@);
            lemma_first_invalid_bounds(t);
            if first_invalid(t) == t.len() {
                assert(forall|j: int| 0 <= j < t.len() ==> is_symbol(t[j]));
                lemma_code_value_nonneg(t);
                assert(t.take(first_invalid(t)) =~= t);
            }
        }
        let id_usize: usize = match experience_code.to_usize() {
            Ok(v) => v,
            Err(e) => {
                return Err(e);
            },
        };
        if id_usize > i32::MAX as usize {
            return Err(DecodeError::ValueOverflow);
        }
        let experience_id: i32 = id_usize as i32;
        let PlaygroundInfo { original_playground, tags_json, progression_json, raw_json } =
            playground;
        let (playground_name, playground_description, created_at, updated_at, map_rotation) =
            match original_playground {
            Some(o) => (
                o.playground_name,
                o.playground_description,
                o.created_at,
                o.updated_at,
                o.map_rotation,
            ),
            None => (String::new(), String::new(), None, None, None),
        };
        let playground_created_at: Timestamp = match created_at {
            Some(t) => t,
            None => Timestamp { seconds: 0, nanos: 0 },
        };
        let playground_updated_at: Timestamp = match updated_at {
            Some(t) => t,
            None => Timestamp { seconds: 0, nanos: 0 },
        };
        let rotation: Vec<MapRotationEntry> = match map_rotation {
            Some(r) => r.maps,
            None => Vec::new(),
        };
        let mut maps: Vec<Option<String>> = Vec::new();
        let mut game_sizes: Vec<Option<i32>> = Vec::new();
        let mut modes: Vec<Option<String>> = Vec::new();
        let mut k: usize = 0;
        while k < rotation.len()
            invariant
                k <= rotation.len(),
                maps@.len() == k,
                game_sizes@.len() == k,
                modes@.len() == k,
                forall|i: int| 0 <= i < k ==> maps@[i] == Some(rotation@[i].mapname),
                forall|i: int| 0 <= i < k ==> game_sizes@[i] == Some(rotation@[i].game_size),
                forall|i: int| 0 <= i < k ==> modes@[i] == Some(rotation@[i].mode),
            decreases rotation.len() - k,
        {
            let entry: &MapRotationEntry = &rotation[k];
            maps.push(Some(entry.mapname.clone()));
            game_sizes.push(Some(entry.game_size));
            modes.push(Some(entry.mode.clone()));
            k += 1;
        }
        Ok(
            Experience {
                experience_id,
                share_code: experience_code.into_string(),
                playground_name,
                playground_description,
                playground_created_at,
                playground_updated_at,
                playground_data: raw_json,
                tags: tags_json,
                maps,
                game_sizes,
                modes,
                progression_mode: progression_json,
                created_at: now,
                updated_at: now,
            },
        )
    }

    /// Builds the minimal row for a fetched playground: id, share code,
    /// display fields and raw payload; every extended column is left empty.
    pub fn init(experience_code: ExperienceCode, playground: PlaygroundInfo) -> (r: Result<
        Experience,
        DecodeError,
    >)
        ensures
            r is Ok <==> code_fits_id(experience_code@),
            r matches Ok(e) ==> ({
                &&& e.experience_id as int == code_value(strip_pad(experience_code@))
                &&& e.share_code@ == experience_code@
                &&& e.playground_name@ == pg_name(playground)
                &&& e.playground_description@ == pg_description(playground)
                &&& e.playground_data@ == playground.raw_json@
                &&& e.tags@.len() == 0
                &&& e.progression_mode@.len() == 0
                &&& e.maps@.len() == 0
                &&& e.game_sizes@.len() == 0
                &&& e.modes@.len() == 0
                &&& e.playground_created_at == (Timestamp { seconds: 0, nanos: 0 })
                &&& e.playground_updated_at == (Timestamp { seconds: 0, nanos: 0 })
                &&& e.created_at == (Timestamp { seconds: 0, nanos: 0 })
                &&& e.updated_at == (Timestamp { seconds: 0, nanos: 0 })
            }),
    {
        proof {
            let t = strip_pad(experience_code@);
            lemma_first_invalid_bounds(t);
            if first_invalid(t) == t.len() {
                assert(forall|j: int| 0 <= j < t.len() ==> is_symbol(t[j]));
                lemma_code_value_nonneg(t);
                assert(t.take(first_invalid(t)) =~= t);
            }
        }
        let id_usize: usize = match experience_code.to_usize() {
            Ok(v) => v,
            Err(e) => {
                return Err(e);
            },
        };
        if id_usize > i32::MAX as usize {
            return Err(DecodeError::ValueOverflow);
        }
        let experience_id: i32 = id_usize as i32;
        let (playground_name, playground_description) = match playground.original_playground {
            Some(o) => (o.playground_name, o.playground_description),
            None => (String::new(), String::new()),
        };
        Ok(
            Experience {
                experience_id,
                share_code: experience_code.into_string(),
                playground_name,
                playground_description,
                playground_created_at: Timestamp { seconds: 0, nanos: 0 },
                playground_updated_at: Timestamp { seconds: 0, nanos: 0 },
                playground_data: playground.raw_json,
                tags: String::new(),
                maps: Vec::new(),
                game_sizes: Vec::new(),
                modes: Vec::new(),
                progression_mode: String::new(),
                created_at: Timestamp { seconds: 0, nanos: 0 },
                updated_at: Timestamp { seconds: 0, nanos: 0 },
            },
        )
    }
}

} // verus!
