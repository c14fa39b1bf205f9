//! What can be chosen on the command line, as far as it has to be read
//! from text.

use vstd::prelude::*;

use crate::sequences::first_position;
use crate::sequences::lemma_first_position_extends;
use crate::text::chars_of;
use crate::text::str_eq;
use crate::text::string_of;

verus! {

/// The underlying geocoders that can be used.
#[derive(Debug, Clone, Copy, PartialEq, Eq, Structural)]
pub enum GeocoderName {
    /// The address-verification provider that is reached over HTTP.
    Smarty,
    /// The address parser, which only normalizes.
    LibPostal,
}

impl GeocoderName {
    /// The geocoder that a name stands for, if it is the name of one.
    pub open spec fn named(name: Seq<char>) -> Option<GeocoderName> {
        if name == "smarty"@ {
            Some(GeocoderName::Smarty)
        } else if name == "libpostal"@ {
            Some(GeocoderName::LibPostal)
        } else {
            None
        }
    }

    /// The geocoder with the given name: `smarty` or `libpostal`.
    pub fn parse(s: &str) -> (r: Option<GeocoderName>)
        ensures
            r == GeocoderName::named(s@),
    {
        if str_eq(s, "smarty") {
            Some(GeocoderName::Smarty)
        } else if str_eq(s, "libpostal") {
            Some(GeocoderName::LibPostal)
        } else {
            None
        }
    }
}

/// What stands before and behind the first `c` in `s`, if there is a `c`.
pub open spec fn split_at_first(s: Seq<char>, c: char) -> Option<(Seq<char>, Seq<char>)> {
    match first_position(s, c) {
        Some(i) => Some((s.take(i), s.skip(i + 1))),
        None => None,
    }
}

/// What stands before and behind the first `c` in `s`, if there is a `c`.
pub fn split_once(s: &str, c: char) -> (r: Option<(String, String)>)
    ensures
        match split_at_first(s@, c) {
            Some((before, behind)) => r matches Some(parts) && parts.0@ == before && parts.1@
                == behind,
            None => r is None,
        },
{
    let chars = chars_of(s);
    let mut i: usize = 0;
    assert(s@.take(0) =~= Seq::<char>::empty());
    while i < chars.len()
        invariant
            i <= chars.len(),
            chars@ == s@,
            first_position(s@.take(i as int), c) is None,
        decreases chars.len() - i,
    {
        proof {
            assert(s@.take(i + 1).drop_last() =~= s@.take(i as int));
            assert(s@.take(i + 1).last() == s@[i as int]);
        }
        if chars[i] == c {
            proof {
                lemma_first_position_extends(s@, c, i + 1);
                assert(s@.take(i as int) =~= chars@.subrange(0, i as int));
                assert(s@.skip(i + 1) =~= chars@.subrange(i + 1, chars@.len() as int));
            }
            return Some((string_of(&chars, 0, i), string_of(&chars, i + 1, chars.len())));
        }
        i += 1;
    }
    assert(s@.take(s@.len() as int) =~= s@);
    None
}

/// A key/value pair used to annotate reported metrics, written `KEY=VALUE`.
#[derive(Debug, Clone, PartialEq, Eq)]
pub struct MetricsLabel {
    pub key: String,
    pub value: String,
}

impl MetricsLabel {
    /// The label that `s` holds: what stands before the first `=` is the
    /// key, what stands behind it the value. A text without `=` is handed
    /// back.
    pub fn parse(s: &str) -> (r: Result<MetricsLabel, String>)
        ensures
            match split_at_first(s@, '=') {
                Some((key, value)) => r matches Ok(label) && label.key@ == key && label.value@
                    == value,
                None => r matches Err(text) && text@ == s@,
            },
    {
        match split_once(s, '=') {
            Some((key, value)) => Ok(MetricsLabel { key, value }),
            None => Err(s.to_owned()),
        }
    }
}

} // verus!
