//! Request parameters: the `key=value` pairs of a query string and the typed
//! values read out of them.

use crate::error::{ApiError, ApiErrorView, ErrorKind};
use crate::number::{bounded_decimal, parse_decimal};
use crate::outside::{url_decode, url_decoded};
use crate::text::{chars_to_string, pair_texts, split, split_on, str_chars, texts};
use vstd::prelude::*;
use vstd::string::StringExecFns;

verus! {

/// The error for a parameter that is no unsigned number in range.
pub open spec fn invalid_number() -> ApiErrorView {
    ApiErrorView { kind: ErrorKind::InvalidArgument, message: "Invalid number parameter"@ }
}

/// The error for a parameter that is neither `true` nor `false`.
pub open spec fn invalid_bool() -> ApiErrorView {
    ApiErrorView { kind: ErrorKind::InvalidArgument, message: "Invalid boolean parameter"@ }
}

fn number_param(uri_param: Option<&String>, max: u64) -> (res: Result<Option<u64>, ApiError>)
    ensures
        match uri_param {
            None => res == Ok::<Option<u64>, ApiError>(None),
            Some(p) => match bounded_decimal(p@, max as nat) {
                Some(v) => res == Ok::<Option<u64>, ApiError>(Some(v as u64)),
                None => res is Err && res->Err_0@ == invalid_number(),
            },
        },
{
    match uri_param {
        None => Ok(None),
        Some(p) => {
            let chars = str_chars(p.as_str());
            match parse_decimal(&chars, max) {
                Some(v) => Ok(Some(v)),
                None => Err(ApiError::new(ErrorKind::InvalidArgument, "Invalid number parameter")),
            }
        },
    }
}

/// Reads an optional parameter as a `usize`. An absent parameter is `None`;
/// one that is no decimal number in range is an invalid argument.
pub fn get_usize(uri_param: Option<&String>) -> (res: Result<Option<usize>, ApiError>)
    ensures
        match uri_param {
            None => res == Ok::<Option<usize>, ApiError>(None),
            Some(p) => match bounded_decimal(p@, usize::MAX as nat) {
                Some(v) => res == Ok::<Option<usize>, ApiError>(Some(v as usize)),
                None => res is Err && res->Err_0@ == invalid_number(),
            },
        },
{
    match number_param(uri_param, usize::MAX as u64) {
        Ok(Some(v)) => Ok(Some(v as usize)),
        Ok(None) => Ok(None),
        Err(e) => Err(e),
    }
}

/// Reads an optional parameter as a `u16`. An absent parameter is `None`;
/// one that is no decimal number in range is an invalid argument.
pub fn get_u16(uri_param: Option<&String>) -> (res: Result<Option<u16>, ApiError>)
    ensures
        match uri_param {
            None => res == Ok::<Option<u16>, ApiError>(None),
            Some(p) => match bounded_decimal(p@, u16::MAX as nat) {
                Some(v) => res == Ok::<Option<u16>, ApiError>(Some(v as u16)),
                None => res is Err && res->Err_0@ == invalid_number(),
            },
        },
{
    match number_param(uri_param, u16::MAX as u64) {
        Ok(Some(v)) => Ok(Some(v as u16)),
        Ok(None) => Ok(None),
        Err(e) => Err(e),
    }
}

/// Reads an optional parameter as a `u32`. An absent parameter is `None`;
/// one that is no decimal number in range is an invalid argument.
pub fn get_u32(uri_param: Option<&String>) -> (res: Result<Option<u32>, ApiError>)
    ensures
        match uri_param {
            None => res == Ok::<Option<u32>, ApiError>(None),
            Some(p) => match bounded_decimal(p@, u32::MAX as nat) {
                Some(v) => res == Ok::<Option<u32>, ApiError>(Some(v as u32)),
                None => res is Err && res->Err_0@ == invalid_number(),
            },
        },
{
    match number_param(uri_param, u32::MAX as u64) {
        Ok(Some(v)) => Ok(Some(v as u32)),
        Ok(None) => Ok(None),
        Err(e) => Err(e),
    }
}

/// Reads an optional parameter as a `bool`: `true` or `false`, spelled so.
/// An absent parameter is `None`; any other text is an invalid argument.
pub fn get_bool(uri_param: Option<&String>) -> (res: Result<Option<bool>, ApiError>)
    ensures
        match uri_param {
            None => res == Ok::<Option<bool>, ApiError>(None),
            Some(p) => if p@ == "true"@ {
                res == Ok::<Option<bool>, ApiError>(Some(true))
            } else if p@ == "false"@ {
                res == Ok::<Option<bool>, ApiError>(Some(false))
            } else {
                res is Err && res->Err_0@ == invalid_bool()
            },
        },
{
    match uri_param {
        None => Ok(None),
        Some(p) => {
            let yes = String::from_str("true");
            let no = String::from_str("false");
            if *p == yes {
                Ok(Some(true))
            } else if *p == no {
                Ok(Some(false))
            } else {
                Err(ApiError::new(ErrorKind::InvalidArgument, "Invalid boolean parameter"))
            }
        },
    }
}

/// The `key=value` pairs among the given parts, in order. A part that does
/// not hold exactly one `=` gives no pair.
pub open spec fn pairs_of(parts: Seq<Seq<char>>) -> Seq<(Seq<char>, Seq<char>)>
    decreases parts.len(),
{
    if parts.len() == 0 {
        Seq::empty()
    } else {
        let before = pairs_of(parts.drop_last());
        let sides = split_on(parts.last(), '=');
        if sides.len() == 2 {
            before.push((sides[0], sides[1]))
        } else {
            before
        }
    }
}

/// The `key=value` pairs of a query string whose parts are separated by `&`,
/// as written.
pub open spec fn raw_pairs(uri: Seq<char>) -> Seq<(Seq<char>, Seq<char>)> {
    pairs_of(split_on(uri, '&'))
}

/// Splits a query string into its `key=value` pairs, as written.
pub fn split_params(uri: &Vec<char>) -> (res: Vec<(Vec<char>, Vec<char>)>)
    ensures
        pair_texts(res@) == raw_pairs(uri@),
{
    let parts = split(uri, '&');
    let ghost all = split_on(uri@, '&');
    let mut out: Vec<(Vec<char>, Vec<char>)> = Vec::new();
    let mut i: usize = 0;
    assert(all.take(0) =~= Seq::<Seq<char>>::empty());
    assert(pair_texts(out@) =~= pairs_of(all.take(0)));
    while i < parts.len()
        invariant
            i <= parts.len(),
            texts(parts@) == all,
            pair_texts(out@) == pairs_of(all.take(i as int)),
        decreases parts.len() - i,
    {
        proof {
            assert(all.take(i + 1).drop_last() =~= all.take(i as int));
            assert(all.take(i + 1).last() == parts@[i as int]@);
        }
        let mut sides = split(&parts[i], '=');
        if sides.len() == 2 {
            let ghost shown = texts(sides@);
            let ghost before = out@;
            let value = sides.pop().unwrap();
            let key = sides.pop().unwrap();
            assert(key@ == shown[0] && value@ == shown[1]);
            out.push((key, value));
            assert(pair_texts(out@) =~= pair_texts(before).push((shown[0], shown[1])));
        }
        i += 1;
    }
    assert(all.take(parts.len() as int) =~= all);
    out
}

/// The parameters of a request: keys and percent-decoded values, in the
/// order in which the query string gives them.
pub struct Params {
    entries: Vec<(String, String)>,
}

/// The value that a list of pairs gives for a key: that of the last pair
/// with this key.
pub open spec fn lookup(entries: Seq<(Seq<char>, Seq<char>)>, key: Seq<char>) -> Option<Seq<char>>
    decreases entries.len(),
{
    if entries.len() == 0 {
        None
    } else if entries.last().0 == key {
        Some(entries.last().1)
    } else {
        lookup(entries.drop_last(), key)
    }
}

/// The pairs with each value percent-decoded.
pub open spec fn decoded_pairs(raw: Seq<(Seq<char>, Seq<char>)>) -> Seq<(Seq<char>, Seq<char>)> {
    Seq::new(raw.len(), |i: int| (raw[i].0, url_decoded(raw[i].1)))
}

impl View for Params {
    type V = Seq<(Seq<char>, Seq<char>)>;

    closed spec fn view(&self) -> Seq<(Seq<char>, Seq<char>)> {
        Seq::new(self.entries@.len(), |i: int| (self.entries@[i].0@, self.entries@[i].1@))
    }
}

impl Params {
    /// The value of a parameter, if the request gives one. Where a key
    /// occurs more than once, its last value counts.
    pub fn get(&self, key: &str) -> (res: Option<&String>)
        ensures
            match res {
                Some(v) => lookup(self@, key@) == Some(v@),
                None => lookup(self@, key@) is None,
            },
    {
        let wanted = String::from_str(key);
        let mut i: usize = self.entries.len();
        assert(self@.take(i as int) =~= self@);
        while i > 0
            invariant
                i <= self.entries.len(),
                wanted@ == key@,
                lookup(self@, key@) == lookup(self@.take(i as int), key@),
            decreases i,
        {
            let ghost upto = self@.take(i as int);
            assert(upto.last() == (self.entries@[i - 1].0@, self.entries@[i - 1].1@));
            assert(upto.drop_last() =~= self@.take(i - 1));
            if self.entries[i - 1].0 == wanted {
                return Some(&self.entries[i - 1].1);
            }
            i -= 1;
        }
        None
    }
}

/// Reads the parameters of a request out of its query string. The parts are
/// separated by `&`; a part with exactly one `=` gives a key and a value,
/// and the value is percent-decoded.
pub fn parse_params(uri: String) -> (res: Params)
    ensures
        res@ == decoded_pairs(raw_pairs(uri@)),
{
    let chars = str_chars(uri.as_str());
    let raw = split_params(&chars);
    let mut entries: Vec<(String, String)> = Vec::new();
    let mut i: usize = 0;
    while i < raw.len()
        invariant
            i <= raw.len(),
            entries.len() == i,
            forall|k: int|
                0 <= k < i ==> entries@[k].0@ == raw@[k].0@ && entries@[k].1@ == url_decoded(
                    raw@[k].1@,
                ),
        decreases raw.len() - i,
    {
        let key = chars_to_string(&raw[i].0);
        let written = chars_to_string(&raw[i].1);
        let value = url_decode(written.as_str());
        entries.push((key, value));
        i += 1;
    }
    let res = Params { entries };
    assert(res@ =~= decoded_pairs(pair_texts(raw@)));
    res
}

} // verus!
