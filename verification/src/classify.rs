//! Line classification and direction resolution: broadcast vs. directed,
//! client-to-server vs. server-to-client, and extraction of the payload
//! after the directional marker.

use vstd::prelude::*;
use indexmap::IndexMap;
use crate::strutil::{
    spec_trim, trim_str, match_at, first_match_from, find_sub, starts_with_sub,
};
use crate::imap::{power_entries, lookup, pm_get};
use crate::record::FatalError;

verus! {

/// A classified line: whether it is a broadcast, the resolved origin power
/// of a directed line (empty for broadcasts), the direction of travel, and
/// the payload after the directional marker, trimmed.
pub struct ClassifiedLine {
    pub is_broadcast: bool,
    pub origin: String,
    pub to_server: bool,
    pub payload: String,
}

/// Spec view of a classified line.
pub struct LineV {
    pub is_broadcast: bool,
    pub origin: Seq<char>,
    pub to_server: bool,
    pub payload: Seq<char>,
}

pub open spec fn line_view(c: ClassifiedLine) -> LineV {
    LineV {
        is_broadcast: c.is_broadcast,
        origin: c.origin@,
        to_server: c.to_server,
        payload: c.payload@,
    }
}

/// Classification of one raw line against a power registry. The line is
/// trimmed; a broadcast starts with the all-participants marker; a directed
/// line's origin is resolved through the registry by its first character
/// (fatal when absent); exactly the directional markers decide direction and
/// payload position, the incoming marker winning when both occur.
pub open spec fn spec_classify(
    line: Seq<char>,
    pm: Seq<(Seq<char>, Seq<char>)>,
) -> Result<LineV, FatalError> {
    let l = spec_trim(line);
    let is_b = match_at(l, "ALL"@, 0);
    if !is_b && (l.len() == 0 || lookup(pm, seq![l[0]]) is None) {
        Err(FatalError::UnknownOriginPower)
    } else {
        let out_idx = first_match_from(l, ">>"@, 0);
        let in_idx = first_match_from(l, "<<"@, 0);
        match (in_idx, out_idx) {
            (None, None) => Err(FatalError::MissingDirectionMarker),
            _ => {
                let idx = match in_idx {
                    Some(i) => i,
                    None => match out_idx {
                        Some(i) => i,
                        None => 0,
                    },
                };
                Ok(
                    LineV {
                        is_broadcast: is_b,
                        origin: if is_b {
                            seq![]
                        } else {
                            match lookup(pm, seq![l[0]]) {
                                Some(p) => p,
                                None => seq![],
                            }
                        },
                        to_server: out_idx is Some,
                        payload: spec_trim(l.skip(idx + 2)),
                    },
                )
            },
        }
    }
}

/// Classifies one raw line, as `spec_classify` describes.
pub fn classify_line(line: &str, pm: &IndexMap<String, String>) -> (r: Result<
    ClassifiedLine,
    FatalError,
>)
    ensures
        match r {
            Ok(c) => spec_classify(line@, power_entries(*pm)) == Ok::<LineV, FatalError>(
                line_view(c),
            ),
            Err(e) => spec_classify(line@, power_entries(*pm)) == Err::<LineV, FatalError>(e),
        },
{
    proof {
        reveal_strlit("ALL");
        reveal_strlit(">>");
        reveal_strlit("<<");
    }
    let l = trim_str(line);
    let n = l.unicode_len();
    let is_b = starts_with_sub(l, "ALL");
    let mut origin: String = "".to_owned();
    proof {
        reveal_strlit("");
    }
    if !is_b {
        if n == 0 {
            return Err(FatalError::UnknownOriginPower);
        }
        let key = l.substring_char(0, 1);
        proof {
            assert(key@ =~= seq![l@[0]]);
        }
        match pm_get(pm, key) {
            Some(p) => {
                origin = p;
            },
            None => {
                return Err(FatalError::UnknownOriginPower);
            },
        }
    }
    let out_idx = find_sub(l, ">>");
    let in_idx = find_sub(l, "<<");
    let idx: usize;
    match (in_idx, out_idx) {
        (Some(i), _) => {
            idx = i;
        },
        (None, Some(i)) => {
            idx = i;
        },
        (None, None) => {
            return Err(FatalError::MissingDirectionMarker);
        },
    }
    proof {
        crate::strutil::lemma_first_match_props(l@, "<<"@, 0);
        crate::strutil::lemma_first_match_props(l@, ">>"@, 0);
        assert(match_at(l@, (if in_idx is Some { "<<"@ } else { ">>"@ }), idx as int));
    }
    let payload = trim_str(l.substring_char(idx + 2, n));
    proof {
        assert(l@.subrange(idx + 2, n as int) =~= l@.skip(idx + 2));
        assert(""@ =~= Seq::<char>::empty());
    }
    Ok(
        ClassifiedLine {
            is_broadcast: is_b,
            origin,
            to_server: out_idx.is_some(),
            payload: payload.to_owned(),
        },
    )
}

} // verus!
