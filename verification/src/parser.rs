//! URL dissection into scheme, host, port and path, as the probes and
//! the hyperlink rendering need it.

use crate::text::{
    all_digits, dec_val, find_char_from, find_from, parse_decimal_capped, str_eq, trim_ascii,
    trim_spec,
};
use vstd::prelude::*;

verus! {

/// A port as `u16` text allows it: a non-empty digit run of at most
/// 65535 (leading zeros permitted).
pub open spec fn valid_port_text(s: Seq<char>) -> bool {
    s.len() > 0 && all_digits(s) && dec_val(s) <= 0xffff
}

/// Index of the first `://` in `s` at or past `i`, or the length of `s`
/// when there is none.
pub open spec fn find_sep_from(s: Seq<char>, i: int) -> int
    decreases s.len() - i,
{
    if i < 0 {
        find_sep_from(s, 0)
    } else if i + 3 > s.len() {
        s.len() as int
    } else if s[i] == ':' && s[i + 1] == '/' && s[i + 2] == '/' {
        i
    } else {
        find_sep_from(s, i + 1)
    }
}

/// What URL text parses to — `(scheme, host, port, path)` — or the
/// message naming what is wrong: text without `://` has no scheme, and
/// an empty host (nothing between the separator and the first `/`, `:`
/// or the end) is refused. A path defaults to `/`; port text that does
/// not name a `u16` is dropped rather than refused.
pub open spec fn url_parse(s: Seq<char>) -> Result<
    (Seq<char>, Seq<char>, Option<u16>, Seq<char>),
    Seq<char>,
> {
    let sep = find_sep_from(s, 0);
    if sep == s.len() {
        Err("Missing scheme"@)
    } else {
        let scheme = s.subrange(0, sep);
        let rest = s.subrange(sep + 3, s.len() as int);
        let he = find_from(rest, '/', 0);
        let host_port = rest.subrange(0, he);
        let path = if he < rest.len() {
            rest.subrange(he, rest.len() as int)
        } else {
            "/"@
        };
        let colon = find_from(host_port, ':', 0);
        let host = host_port.subrange(0, colon);
        let port_text = host_port.subrange(colon + 1, host_port.len() as int);
        let port = if colon < host_port.len() && valid_port_text(port_text) {
            Some(dec_val(port_text) as u16)
        } else {
            None::<u16>
        };
        if host.len() == 0 {
            Err("Invalid host"@)
        } else {
            Ok((scheme, host, port, path))
        }
    }
}

/// First index of `://` in `s`, or the length of `s`.
fn find_scheme_sep(s: &str) -> (r: usize)
    ensures
        r == find_sep_from(s@, 0),
        r <= s@.len(),
        r < s@.len() ==> r + 3 <= s@.len(),
{
    let n = s.unicode_len();
    if n < 3 {
        return n;
    }
    let mut i: usize = 0;
    while i <= n - 3
        invariant
            0 <= i <= n,
            3 <= n == s@.len(),
            find_sep_from(s@, 0) == find_sep_from(s@, i as int),
        decreases n - i,
    {
        if s.get_char(i) == ':' && s.get_char(i + 1) == '/' && s.get_char(i + 2) == '/' {
            return i;
        }
        i = i + 1;
    }
    n
}

/// The pieces of a URL.
pub struct Parser {
    pub scheme: String,
    pub host: String,
    pub port: Option<u16>,
    pub path: String,
}

/// Whether URL text held a usable host.
pub enum Extracted {
    Success(String),
    Error,
}

impl Parser {
    /// Split URL text into scheme, host, optional port and path, as
    /// `url_parse` lays it out.
    pub fn parse(url: &str) -> (r: Result<Parser, &'static str>)
        ensures
            match (r, url_parse(url@)) {
                (Ok(p), Ok(t)) => p.scheme@ == t.0 && p.host@ == t.1 && p.port == t.2 && p.path@
                    == t.3,
                (Err(e), Err(m)) => e@ == m,
                _ => false,
            },
    {
        let n = url.unicode_len();
        let sep = find_scheme_sep(url);
        if sep == n {
            return Err("Missing scheme");
        }
        let scheme = url.substring_char(0, sep);
        let rest = url.substring_char(sep + 3, n);
        let rest_len = rest.unicode_len();
        let he = find_char_from(rest, '/', 0);
        let host_port = rest.substring_char(0, he);
        let path = if he < rest_len {
            rest.substring_char(he, rest_len)
        } else {
            "/"
        };
        let hp_len = host_port.unicode_len();
        let colon = find_char_from(host_port, ':', 0);
        let host = host_port.substring_char(0, colon);
        let port: Option<u16> = if colon < hp_len {
            let port_text = host_port.substring_char(colon + 1, hp_len);
            match parse_decimal_capped(port_text, 0xffff) {
                Some(v) => Some(v as u16),
                None => None,
            }
        } else {
            None
        };
        if colon == 0 {
            return Err("Invalid host");
        }
        Ok(
            Parser {
                scheme: scheme.to_owned(),
                host: host.to_owned(),
                port,
                path: path.to_owned(),
            },
        )
    }

    /// The host of URL text, when it has one.
    pub fn extract_url(input: &str) -> (r: Extracted)
        ensures
            match (r, url_parse(input@)) {
                (Extracted::Success(h), Ok(t)) => h@ == t.1,
                (Extracted::Error, Err(m)) => true,
                _ => false,
            },
    {
        match Self::parse(input) {
            Ok(parsed) => Extracted::Success(parsed.host),
            Err(_) => Extracted::Error,
        }
    }
}

/// The pieces of comma-separated text, split at every comma.
pub open spec fn split_commas(s: Seq<char>) -> Seq<Seq<char>>
    decreases s.len(),
{
    let c = find_from(s, ',', 0);
    if 0 <= c && c < s.len() {
        seq![s.subrange(0, c)] + split_commas(s.subrange(c + 1, s.len() as int))
    } else {
        seq![s]
    }
}

/// The same pieces trimmed, empty ones dropped.
pub open spec fn cleaned(parts: Seq<Seq<char>>) -> Seq<Seq<char>>
    decreases parts.len(),
{
    if parts.len() == 0 {
        Seq::empty()
    } else {
        let head = trim_spec(parts[0]);
        (if head.len() > 0 {
            seq![head]
        } else {
            Seq::<Seq<char>>::empty()
        }) + cleaned(parts.drop_first())
    }
}

/// The destinations named by one argument: a bracketed list or bare
/// comma-separated text is split at commas, each entry trimmed and
/// empty entries dropped; anything else is one destination, trimmed.
pub open spec fn destinations_of(s: Seq<char>) -> Seq<Seq<char>> {
    let t = trim_spec(s);
    if t.len() >= 2 && t[0] == '[' && t.last() == ']' {
        cleaned(split_commas(t.subrange(1, t.len() - 1)))
    } else if find_from(t, ',', 0) < t.len() {
        cleaned(split_commas(t))
    } else {
        seq![t]
    }
}

/// Split comma-separated text into trimmed, non-empty entries.
fn collect_parts(s: &str) -> (r: Vec<String>)
    ensures
        r@.map_values(|x: String| x@) =~= cleaned(split_commas(s@)),
    decreases s@.len(),
{
    let n = s.unicode_len();
    let c = find_char_from(s, ',', 0);
    let head = trim_ascii(s.substring_char(0, c));
    let head_empty = head.unicode_len() == 0;
    if c == n {
        proof {
            reveal_with_fuel(cleaned, 3);
            assert(s@.subrange(0, n as int) =~= s@);
            assert(split_commas(s@) =~= seq![s@]);
            assert(split_commas(s@).drop_first() =~= Seq::<Seq<char>>::empty());
        }
        let mut r: Vec<String> = Vec::new();
        if !head_empty {
            r.push(head.to_owned());
        }
        proof {
            assert(r@.map_values(|x: String| x@) =~= cleaned(split_commas(s@)));
        }
        r
    } else {
        let rest = s.substring_char(c + 1, n);
        let mut tail = collect_parts(rest);
        proof {
            reveal_with_fuel(cleaned, 3);
            assert(split_commas(s@)[0] == s@.subrange(0, c as int));
            assert(split_commas(s@).drop_first() =~= split_commas(s@.subrange(c + 1, n as int)));
        }
        if head_empty {
            proof {
                assert(tail@.map_values(|x: String| x@) =~= cleaned(split_commas(s@)));
            }
            tail
        } else {
            tail.insert(0, head.to_owned());
            proof {
                assert(tail@.map_values(|x: String| x@) =~= cleaned(split_commas(s@)));
            }
            tail
        }
    }
}

/// Read one destination argument as a list of destinations.
pub fn parse_multiple_destinations(input: &str) -> (r: Vec<String>)
    ensures
        r@.map_values(|x: String| x@) =~= destinations_of(input@),
{
    let t = trim_ascii(input);
    let n = t.unicode_len();
    let bracketed = if n >= 2 {
        t.get_char(0) == '[' && t.get_char(n - 1) == ']'
    } else {
        false
    };
    if bracketed {
        collect_parts(t.substring_char(1, n - 1))
    } else if find_char_from(t, ',', 0) < n {
        collect_parts(t)
    } else {
        let mut r: Vec<String> = Vec::new();
        r.push(t.to_owned());
        proof {
            assert(r@.map_values(|x: String| x@) =~= seq![t@]);
        }
        r
    }
}

/// The texts of a list of strings.
pub open spec fn texts_of(v: Seq<String>) -> Seq<Seq<char>> {
    v.map_values(|x: String| x@)
}

/// `s` with every entry dropped whose text appeared earlier in it.
pub open spec fn dedup_texts(s: Seq<Seq<char>>) -> Seq<Seq<char>>
    decreases s.len(),
{
    if s.len() == 0 {
        Seq::empty()
    } else {
        dedup_texts(s.drop_last()) + (if s.drop_last().contains(s.last()) {
            Seq::<Seq<char>>::empty()
        } else {
            seq![s.last()]
        })
    }
}

/// Drop every destination already named before it, keeping the order of
/// first appearances.
pub fn dedup_destinations(list: &Vec<String>) -> (r: Vec<String>)
    ensures
        texts_of(r@) =~= dedup_texts(texts_of(list@)),
{
    let mut r: Vec<String> = Vec::new();
    let mut i: usize = 0;
    while i < list.len()
        invariant
            0 <= i <= list@.len(),
            texts_of(r@) =~= dedup_texts(texts_of(list@).take(i as int)),
            forall|v: Seq<char>|
                #![trigger texts_of(r@).contains(v)]
                texts_of(list@).take(i as int).contains(v) <==> texts_of(r@).contains(v),
        decreases list@.len() - i,
    {
        let mut seen = false;
        let mut j: usize = 0;
        while j < r.len()
            invariant
                0 <= j <= r@.len(),
                i < list@.len(),
                seen ==> texts_of(r@).contains(list@[i as int]@),
                !seen ==> forall|k: int| 0 <= k < j ==> #[trigger] r@[k]@ != list@[i as int]@,
            decreases r@.len() - j,
        {
            if str_eq(r[j].as_str(), list[i].as_str()) {
                seen = true;
                proof {
                    assert(texts_of(r@)[j as int] == list@[i as int]@);
                    assert(texts_of(r@).contains(list@[i as int]@));
                }
            }
            j = j + 1;
        }
        proof {
            let m = texts_of(list@);
            assert(m.take(i + 1).drop_last() =~= m.take(i as int));
            assert(m.take(i + 1).last() == list@[i as int]@);
            if !seen {
                assert(!texts_of(r@).contains(list@[i as int]@)) by {
                    if texts_of(r@).contains(list@[i as int]@) {
                        let k = choose|k: int|
                            0 <= k < texts_of(r@).len() && texts_of(r@)[k] == list@[i as int]@;
                        assert(r@[k]@ == list@[i as int]@);
                    }
                }
            }
            assert(m.take(i as int).contains(m[i as int]) <==> texts_of(r@).contains(
                list@[i as int]@,
            ));
        }
        if !seen {
            let ghost r_old = r@;
            r.push(list[i].clone());
            proof {
                assert(texts_of(r@) =~= texts_of(r_old).push(list@[i as int]@));
                assert(forall|v: Seq<char>|
                    #![trigger texts_of(r@).contains(v)]
                    texts_of(r@).contains(v) <==> (texts_of(r_old).contains(v)
                        || v == list@[i as int]@)) by {
                    assert(forall|v: Seq<char>| #[trigger]
                        texts_of(r_old).contains(v) ==> texts_of(r@).contains(v)) by {
                        assert(forall|k: int|
                            0 <= k < texts_of(r_old).len() ==> texts_of(r@)[k] == #[trigger] texts_of(
                                r_old,
                            )[k]);
                    }
                    assert(texts_of(r@)[texts_of(r@).len() - 1] == list@[i as int]@);
                    assert(texts_of(r@).contains(list@[i as int]@));
                    assert(forall|v: Seq<char>| #[trigger]
                        texts_of(r@).contains(v) ==> texts_of(r_old).contains(v) || v == list@[i as int]@)
                        by {
                        assert(forall|k: int|
                            0 <= k < texts_of(r@).len() - 1 ==> #[trigger] texts_of(r@)[k]
                                == texts_of(r_old)[k]);
                    }
                }
            }
        }
        proof {
            let m = texts_of(list@);
            assert(forall|v: Seq<char>|
                #![trigger m.take(i + 1).contains(v)]
                m.take(i + 1).contains(v) <==> (m.take(i as int).contains(v) || v == m[i as int]))
                by {
                assert(forall|k: int|
                    0 <= k < i ==> #[trigger] m.take(i + 1)[k] == m.take(i as int)[k]);
                assert(m.take(i + 1)[i as int] == m[i as int]);
                assert(forall|v: Seq<char>| #[trigger]
                    m.take(i as int).contains(v) ==> m.take(i + 1).contains(v)) by {
                    assert(forall|k: int|
                        0 <= k < i ==> m.take(i + 1)[k] == #[trigger] m.take(i as int)[k]);
                }
            }
        }
        i = i + 1;
    }
    proof {
        assert(texts_of(list@).take(list@.len() as int) =~= texts_of(list@));
    }
    r
}

} // verus!
