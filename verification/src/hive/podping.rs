//! A podping: a notification that a podcast feed changed, carried as the JSON
//! payload of a Hive `custom_json` operation.
use vstd::prelude::*;
use crate::text::str_eq;

verus! {

/// The schema version of a podping.  Version 1.1 identifies the sending
/// session and the moment of sending.
#[derive(Clone, Copy, Debug, PartialEq, Eq)]
pub enum PodpingVersion {
    V0,
    V02,
    V03,
    V10,
    V11 { session_id: u64, timestamp_ns: u64 },
}

/// A podping, as received and as written out.
#[derive(Debug, Clone)]
pub struct Podping {
    /// The schema version, and for version 1.1 its session fields.
    pub version: PodpingVersion,
    /// The podping as JSON text.
    pub json: String,
}

impl Podping {
    /// A copy of the podping.
    pub fn duplicate(&self) -> (r: Podping)
        ensures
            r == *self,
    {
        Podping { version: self.version, json: self.json.clone() }
    }
}

/// The version that the schema's `version` field names, with the session
/// fields that version 1.1 requires; `None` where the payload fits no version.
pub open spec fn spec_podping_version(
    version: Option<Seq<char>>,
    session_id: Option<u64>,
    timestamp_ns: Option<u64>,
) -> Option<PodpingVersion> {
    match version {
        None => Some(PodpingVersion::V0),
        Some(v) => if v == "0.2"@ {
            Some(PodpingVersion::V02)
        } else if v == "0.3"@ {
            Some(PodpingVersion::V03)
        } else if v == "1.0"@ {
            Some(PodpingVersion::V10)
        } else if v == "1.1"@ && session_id is Some && timestamp_ns is Some {
            Some(PodpingVersion::V11 { session_id: session_id->0, timestamp_ns: timestamp_ns->0 })
        } else {
            None
        },
    }
}

/// Builds a podping from its JSON text and the fields of it that the schema
/// versions are told apart by; `None` where the payload fits no version.
pub fn podping_from_payload(
    json: String,
    version: Option<String>,
    session_id: Option<u64>,
    timestamp_ns: Option<u64>,
) -> (r: Option<Podping>)
    ensures
        match spec_podping_version(
            match version {
                Some(v) => Some(v@),
                None => None,
            },
            session_id,
            timestamp_ns,
        ) {
            Some(v) => r matches Some(p) && p.version == v && p.json == json,
            None => r is None,
        },
{
    proof {
        reveal_strlit("0.2");
        reveal_strlit("0.3");
        reveal_strlit("1.0");
        reveal_strlit("1.1");
    }
    let v = match version {
        None => PodpingVersion::V0,
        Some(v) => {
            if str_eq(v.as_str(), "0.2") {
                PodpingVersion::V02
            } else if str_eq(v.as_str(), "0.3") {
                PodpingVersion::V03
            } else if str_eq(v.as_str(), "1.0") {
                PodpingVersion::V10
            } else if str_eq(v.as_str(), "1.1") {
                match (session_id, timestamp_ns) {
                    (Some(s), Some(t)) => PodpingVersion::V11 { session_id: s, timestamp_ns: t },
                    _ => {
                        return None;
                    },
                }
            } else {
                return None;
            }
        },
    };
    Some(Podping { version: v, json })
}

} // verus!
