//! Magnet URIs: the info hash, trackers and display name they carry.
use vstd::prelude::*;
use vstd::utf8::encode_utf8;
use crate::Error;
use crate::links::{pair_views, url_parse, url_parts};
use crate::text::{push_str, str_to_string, text_eq};

verus! {

/// A parsed magnet link.
#[derive(Debug)]
pub struct Magnet {
    pub info_hash: [u8; 20],
    pub trackers: Vec<String>,
    pub name: Option<String>,
}

/// A magnet link with its text and bytes seen as sequences.
pub struct MagnetView {
    pub info_hash: Seq<u8>,
    pub trackers: Seq<Seq<char>>,
    pub name: Option<Seq<char>>,
}

impl View for Magnet {
    type V = MagnetView;

    open spec fn view(&self) -> MagnetView {
        MagnetView {
            info_hash: self.info_hash@,
            trackers: self.trackers@.map_values(|s: String| s@),
            name: match self.name {
                Some(n) => Some(n@),
                None => None,
            },
        }
    }
}

/// The value of an ASCII byte read as a hexadecimal digit, or -1.
pub open spec fn hex_byte(b: u8) -> int {
    if 48 <= b <= 57 {
        b - 48
    } else if 97 <= b <= 102 {
        b - 87
    } else if 65 <= b <= 70 {
        b - 55
    } else {
        -1
    }
}

/// Two bytes read as a base-16 `u8` the way `u8::from_str_radix` reads them:
/// an optional `+` sign, then hexadecimal digits.
pub open spec fn hex_pair(a: u8, b: u8) -> Option<u8> {
    if a == 43 {
        if hex_byte(b) >= 0 {
            Some(hex_byte(b) as u8)
        } else {
            None
        }
    } else if hex_byte(a) >= 0 && hex_byte(b) >= 0 {
        Some((hex_byte(a) * 16 + hex_byte(b)) as u8)
    } else {
        None
    }
}

/// The bytes of `urn:btih:`.
pub open spec fn btih_prefix() -> Seq<u8> {
    seq![117u8, 114, 110, 58, 98, 116, 105, 104, 58]
}

/// The 20 bytes written as 40 hexadecimal digits, two per byte, or `None`
/// when a pair is not a number.
pub open spec fn hex40(h: Seq<u8>) -> Option<Seq<u8>> {
    if forall|i: int| 0 <= i < 20 ==> #[trigger] hex_pair(h[2 * i], h[2 * i + 1]) is Some {
        Some(Seq::new(20, |i: int| hex_pair(h[2 * i], h[2 * i + 1])->Some_0))
    } else {
        None
    }
}

/// What an `xt` value says of the info hash: nothing unless its UTF-8 bytes
/// are `urn:btih:` and 40 more bytes; then the hash, or `None` for bad hex.
pub open spec fn xt_hash(value: Seq<char>) -> Option<Option<Seq<u8>>> {
    let b = encode_utf8(value);
    if b.len() == 49 && b.subrange(0, 9) == btih_prefix() {
        Some(hex40(b.subrange(9, 49)))
    } else {
        None
    }
}

/// The info hash, trackers and name gathered from the query pairs so far,
/// or `None` once a bad hex digit was met.
pub open spec fn scan_pairs(pairs: Seq<(Seq<char>, Seq<char>)>) -> Option<
    (Option<Seq<u8>>, Seq<Seq<char>>, Option<Seq<char>>),
>
    decreases pairs.len(),
{
    if pairs.len() == 0 {
        Some((None, Seq::empty(), None))
    } else {
        match scan_pairs(pairs.drop_last()) {
            None => None,
            Some((h, t, n)) => {
                let (k, v) = pairs.last();
                if k == "xt"@ {
                    match xt_hash(v) {
                        None => Some((h, t, n)),
                        Some(None) => None,
                        Some(Some(x)) => Some((Some(x), t, n)),
                    }
                } else if k == "tr"@ {
                    Some((h, t.push(v), n))
                } else if k == "dn"@ {
                    Some((h, t, Some(v)))
                } else {
                    Some((h, t, n))
                }
            },
        }
    }
}

/// The magnet link that a URI with this scheme and these query pairs gives,
/// or the message of the error.
pub open spec fn magnet_of(scheme: Seq<char>, pairs: Seq<(Seq<char>, Seq<char>)>) -> Result<
    MagnetView,
    Seq<char>,
> {
    if scheme != "magnet"@ {
        Err("Not a magnet URI"@)
    } else {
        match scan_pairs(pairs) {
            None => Err("Invalid hex in info_hash"@),
            Some((None, _, _)) => Err("Missing xt (info_hash) in magnet URI"@),
            Some((Some(h), t, n)) => Ok(MagnetView { info_hash: h, trackers: t, name: n }),
        }
    }
}

fn hex_byte_of(b: u8) -> (r: i32)
    ensures
        r == hex_byte(b),
{
    if 48 <= b && b <= 57 {
        (b - 48) as i32
    } else if 97 <= b && b <= 102 {
        (b - 87) as i32
    } else if 65 <= b && b <= 70 {
        (b - 55) as i32
    } else {
        -1
    }
}

pub(crate) fn hex_pair_of(a: u8, b: u8) -> (r: Option<u8>)
    ensures
        r == hex_pair(a, b),
{
    let hb = hex_byte_of(b);
    if a == 43 {
        if hb >= 0 {
            Some(hb as u8)
        } else {
            None
        }
    } else {
        let ha = hex_byte_of(a);
        if ha >= 0 && hb >= 0 {
            Some((ha * 16 + hb) as u8)
        } else {
            None
        }
    }
}

/// Reads the info hash of an `xt` value.
fn xt_hash_of(value: &String) -> (r: Option<Option<[u8; 20]>>)
    ensures
        match xt_hash(value@) {
            None => r is None,
            Some(None) => r matches Some(None),
            Some(Some(h)) => r matches Some(Some(x)) && x@ == h,
        },
{
    let b = value.as_str().as_bytes();
    assert(b@ == encode_utf8(value@));
    let prefix: [u8; 9] = [117u8, 114, 110, 58, 98, 116, 105, 104, 58];
    assert(prefix@ =~= btih_prefix());
    if b.len() != 49 {
        return None;
    }
    let mut i: usize = 0;
    while i < 9
        invariant
            i <= 9,
            b@.len() == 49,
            b@ == encode_utf8(value@),
            prefix@ == btih_prefix(),
            forall|j: int| 0 <= j < i ==> b@[j] == prefix@[j],
        decreases 9 - i,
    {
        if b[i] != prefix[i] {
            assert(b@.subrange(0, 9)[i as int] != btih_prefix()[i as int]);
            return None;
        }
        i = i + 1;
    }
    assert(b@.subrange(0, 9) =~= btih_prefix());
    let ghost h = b@.subrange(9, 49);
    let mut hash = [0u8; 20];
    let mut k: usize = 0;
    while k < 20
        invariant
            k <= 20,
            b@.len() == 49,
            b@ == encode_utf8(value@),
            b@.subrange(0, 9) == btih_prefix(),
            h == b@.subrange(9, 49),
            forall|j: int| 0 <= j < k ==> #[trigger] hex_pair(h[2 * j], h[2 * j + 1]) is Some,
            forall|j: int| 0 <= j < k ==> hash@[j] == hex_pair(h[2 * j], h[2 * j + 1])->Some_0,
        decreases 20 - k,
    {
        match hex_pair_of(b[9 + 2 * k], b[10 + 2 * k]) {
            Some(x) => {
                hash[k] = x;
            },
            None => {
                assert(!(hex_pair(h[2 * k as int], h[2 * k as int + 1]) is Some));
                return Some(None);
            },
        }
        k = k + 1;
    }
    assert(hash@ =~= hex40(h)->Some_0);
    Some(Some(hash))
}

impl Magnet {
    /// The magnet link given by a URI's scheme and query pairs: `xt` gives
    /// the info hash (the last well-formed `urn:btih:` value wins; bad hex is
    /// an error), each `tr` a tracker, `dn` the name (the last one wins).
    pub fn from_parts(scheme: &str, pairs: &Vec<(String, String)>) -> (r: Result<Magnet, Error>)
        ensures
            match magnet_of(scheme@, pair_views(pairs@)) {
                Ok(m) => r matches Ok(x) && x@ == m,
                Err(msg) => r matches Err(Error::Protocol(e)) && e@ == msg,
            },
    {
        if !text_eq(scheme, "magnet") {
            return Err(Error::Protocol(str_to_string("Not a magnet URI")));
        }
        let ghost pv = pair_views(pairs@);
        let mut info_hash: Option<[u8; 20]> = None;
        let mut trackers: Vec<String> = Vec::new();
        let mut name: Option<String> = None;
        let mut i: usize = 0;
        assert(pv.take(0) =~= Seq::<(Seq<char>, Seq<char>)>::empty());
        while i < pairs.len()
            invariant
                i <= pairs@.len(),
                scheme@ == "magnet"@,
                pv == pair_views(pairs@),
                scan_pairs(pv.take(i as int)) matches Some((h, t, n)) && (match h {
                    Some(x) => info_hash matches Some(y) && y@ == x,
                    None => info_hash is None,
                }) && trackers@.map_values(|s: String| s@) == t && (match n {
                    Some(x) => name matches Some(y) && y@ == x,
                    None => name is None,
                }),
            decreases pairs@.len() - i,
        {
            assert(pv.take(i + 1).drop_last() =~= pv.take(i as int));
            assert(pv.take(i + 1).last() == pv[i as int]);
            let key = &pairs[i].0;
            let value = &pairs[i].1;
            if text_eq(key.as_str(), "xt") {
                match xt_hash_of(value) {
                    None => {},
                    Some(None) => {
                        assert(scan_pairs(pv.take(i + 1)) is None);
                        assert(scan_pairs(pv) is None) by {
                            lemma_scan_stops(pv, i + 1);
                        }
                        return Err(Error::Protocol(str_to_string("Invalid hex in info_hash")));
                    },
                    Some(Some(h)) => {
                        info_hash = Some(h);
                    },
                }
            } else if text_eq(key.as_str(), "tr") {
                let ghost before = trackers@;
                trackers.push(value.clone());
                assert(trackers@.map_values(|s: String| s@) =~= before.map_values(|s: String| s@).push(
                    value@,
                ));
            } else if text_eq(key.as_str(), "dn") {
                name = Some(value.clone());
            }
            i = i + 1;
        }
        assert(pv.take(i as int) =~= pv);
        match info_hash {
            Some(h) => Ok(Magnet { info_hash: h, trackers, name }),
            None => Err(Error::Protocol(str_to_string("Missing xt (info_hash) in magnet URI"))),
        }
    }

    /// Parses a magnet URI.
    pub fn parse(uri: &str) -> (r: Result<Magnet, Error>)
        ensures
            match url_parse(uri@) {
                Err(msg) => r matches Err(Error::Protocol(e)) && e@ == "Invalid Magnet URI: "@ + msg,
                Ok(v) => match magnet_of(v.scheme, v.pairs) {
                    Ok(m) => r matches Ok(x) && x@ == m,
                    Err(msg) => r matches Err(Error::Protocol(e)) && e@ == msg,
                },
            },
    {
        match url_parts(uri) {
            Err(msg) => {
                let mut e = str_to_string("Invalid Magnet URI: ");
                push_str(&mut e, msg.as_str());
                Err(Error::Protocol(e))
            },
            Ok(p) => Magnet::from_parts(p.scheme.as_str(), &p.pairs),
        }
    }
}

/// Once the scan of a prefix has failed, the scan of the whole list fails.
proof fn lemma_scan_stops(pairs: Seq<(Seq<char>, Seq<char>)>, n: int)
    requires
        0 <= n <= pairs.len(),
        scan_pairs(pairs.take(n)) is None,
    ensures
        scan_pairs(pairs) is None,
    decreases pairs.len() - n,
{
    if n == pairs.len() {
        assert(pairs.take(n) =~= pairs);
    } else {
        assert(pairs.take(n + 1).drop_last() =~= pairs.take(n));
        lemma_scan_stops(pairs, n + 1);
    }
}


/// The ASCII byte of a hexadecimal digit (lower case) for a value below 16.
pub open spec fn hex_digit_byte(d: int) -> u8 {
    if d < 10 {
        (d + 48) as u8
    } else {
        (d + 87) as u8
    }
}

/// Bytes written as lower-case hexadecimal text, two digits per byte.
pub open spec fn hex_text(h: Seq<u8>) -> Seq<u8> {
    Seq::new(
        2 * h.len(),
        |i: int|
            if i % 2 == 0 {
                hex_digit_byte((h[i / 2] / 16) as int)
            } else {
                hex_digit_byte((h[i / 2] % 16) as int)
            },
    )
}

/// Reading back the hexadecimal text of a 20-byte info hash, as a magnet
/// link's `urn:btih:` value carries it, gives the hash.
pub proof fn law_btih_round_trip(h: Seq<u8>)
    requires
        h.len() == 20,
    ensures
        hex40(hex_text(h)) == Some(h),
{
    let t = hex_text(h);
    assert forall|i: int| 0 <= i < 20 implies #[trigger] hex_pair(t[2 * i], t[2 * i + 1]) == Some(h[i]) by {
        assert((2 * i) / 2 == i && (2 * i) % 2 == 0);
        assert((2 * i + 1) / 2 == i && (2 * i + 1) % 2 == 1);
        let hi = h[i] / 16;
        let lo = h[i] % 16;
        assert(hex_byte(hex_digit_byte(hi as int)) == hi);
        assert(hex_byte(hex_digit_byte(lo as int)) == lo);
        assert(h[i] == hi * 16 + lo);
    }
    assert(Seq::new(20, |i: int| hex_pair(t[2 * i], t[2 * i + 1])->Some_0) =~= h);
}
} // verus!
