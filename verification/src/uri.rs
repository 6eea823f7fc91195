//! The URI grammar and its decomposition.
//!
//! A URI other than the bare `/` must be one or more `/`-or-word
//! segments, optionally a single `.`-extension, optionally a
//! `?key=value(&key=value)*` query over word characters, where a value —
//! but never a key — may be empty. The accepted language is deliberately
//! narrow — no hyphens, no percent-encoding — and is preserved as a
//! compatibility choice.
//!
//! Decomposition trims outer slashes from the path and splits the query
//! on `&`, each pair on its first `=`; empty keys are dropped and a
//! missing `=` leaves the value empty.

use vstd::prelude::*;
use vstd::string::StrSliceExecFns;

use crate::strmap::StringMap;
use crate::strutil::find_char;
use crate::strutil::find_from;
use crate::strutil::is_word_char;
use crate::strutil::lemma_find_from;
use crate::strutil::split_on;
use crate::strutil::split_str;
use crate::strutil::trim_slashes;
use crate::strutil::word_char;

verus! {

/// One or more `/`-or-word segments: non-empty, only word characters and
/// slashes, no empty segment, no trailing slash.
pub open spec fn valid_path_base(s: Seq<char>) -> bool {
    &&& s.len() > 0
    &&& forall|i: int| 0 <= i < s.len() ==> is_word_char(s[i]) || s[i] == '/'
    &&& forall|i: int| 0 <= i < s.len() - 1 ==> !(#[trigger] s[i] == '/' && s[i + 1] == '/')
    &&& s[s.len() - 1] != '/'
}

/// The path part splits at `d` into segments and a non-empty extension of
/// word characters after a dot.
pub open spec fn ext_split_at(s: Seq<char>, d: int) -> bool {
    &&& 1 <= d <= s.len() - 2
    &&& s[d] == '.'
    &&& valid_path_base(s.take(d))
    &&& forall|j: int| d < j < s.len() ==> is_word_char(s[j])
}

/// The path part of a URI: segments, optionally followed by one extension.
pub open spec fn valid_head(s: Seq<char>) -> bool {
    valid_path_base(s) || exists|d: int| ext_split_at(s, d)
}

/// The pair splits at `e` into a non-empty word key and a possibly
/// empty word value around a single `=`.
pub open spec fn pair_split_at(p: Seq<char>, e: int) -> bool {
    &&& 1 <= e <= p.len() - 1
    &&& p[e] == '='
    &&& forall|i: int| 0 <= i < p.len() && i != e ==> is_word_char(p[i])
}

/// One `key=value` pair of the query grammar.
pub open spec fn valid_pair(p: Seq<char>) -> bool {
    exists|e: int| pair_split_at(p, e)
}

/// A query string: `&`-separated pairs, each one `key=value`.
pub open spec fn valid_query(q: Seq<char>) -> bool {
    forall|k: int| 0 <= k < split_on(q, '&').len() ==> valid_pair(#[trigger] split_on(q, '&')[k])
}

/// The URI splits at `j` into a valid path part and a valid query.
pub open spec fn uri_split_at(u: Seq<char>, j: int) -> bool {
    &&& 0 <= j < u.len()
    &&& u[j] == '?'
    &&& valid_head(u.take(j))
    &&& valid_query(u.skip(j + 1))
}

/// The whole URI grammar: the bare root, a path, or a path with a query.
pub open spec fn valid_uri(u: Seq<char>) -> bool {
    ||| u.len() == 1 && u[0] == '/'
    ||| valid_head(u)
    ||| exists|j: int| uri_split_at(u, j)
}

/// The part of the URI before its first `?`, or all of it.
pub open spec fn head_of(u: Seq<char>) -> Seq<char> {
    u.take(find_from(u, '?', 0))
}

/// The part of the URI after its first `?`; empty without one.
pub open spec fn query_of(u: Seq<char>) -> Seq<char> {
    if find_from(u, '?', 0) == u.len() {
        Seq::empty()
    } else {
        u.skip(find_from(u, '?', 0) + 1)
    }
}

/// The path a URI decomposes to: its head with outer slashes trimmed.
pub open spec fn path_of(u: Seq<char>) -> Seq<char> {
    trim_slashes(head_of(u))
}

/// The parameter map a sequence of `&`-chunks decomposes to, left to
/// right: key before the first `=`, value after it (empty without one),
/// empty keys dropped, later pairs overwriting earlier ones.
pub open spec fn chunks_params(chunks: Seq<Seq<char>>) -> Map<Seq<char>, Seq<char>>
    decreases chunks.len(),
{
    if chunks.len() == 0 {
        Map::empty()
    } else {
        let m = chunks_params(chunks.drop_last());
        let c = chunks.last();
        let e = find_from(c, '=', 0);
        if e == 0 {
            m
        } else {
            m.insert(c.take(e), if e == c.len() {
                Seq::empty()
            } else {
                c.skip(e + 1)
            })
        }
    }
}

/// The parameter map of a query string.
pub open spec fn params_of(q: Seq<char>) -> Map<Seq<char>, Seq<char>> {
    chunks_params(split_on(q, '&'))
}

/// Decides [`valid_path_base`].
pub fn check_path_base(s: &str) -> (r: bool)
    ensures
        r == valid_path_base(s@),
{
    let len = s.unicode_len();
    if len == 0 {
        return false;
    }
    let mut i: usize = 0;
    while i < len
        invariant
            len == s@.len(),
            i <= len,
            forall|k: int| 0 <= k < i ==> is_word_char(s@[k]) || s@[k] == '/',
            forall|k: int| 0 <= k < i - 1 ==> !(#[trigger] s@[k] == '/' && s@[k + 1] == '/'),
        decreases len - i,
    {
        let c = s.get_char(i);
        if !(word_char(c) || c == '/') {
            return false;
        }
        if c == '/' && i > 0 && s.get_char(i - 1) == '/' {
            return false;
        }
        i += 1;
    }
    s.get_char(len - 1) != '/'
}

/// Decides [`valid_head`].
pub fn check_head(s: &str) -> (r: bool)
    ensures
        r == valid_head(s@),
{
    let len = s.unicode_len();
    let d = find_char(s, '.');
    proof {
        lemma_find_from(s@, '.', 0);
    }
    if d == len {
        // No dot: an extension split would put one somewhere.
        proof {
            if exists|k: int| ext_split_at(s@, k) {
                let k = choose|k: int| ext_split_at(s@, k);
                assert(s@[k] == '.');
                assert(false);
            }
        }
        check_path_base(s)
    } else {
        // A dot: the base excludes dots, so the path never validates whole,
        // and any extension split sits at the first dot.
        proof {
            assert(!valid_path_base(s@)) by {
                if valid_path_base(s@) {
                    assert(is_word_char(s@[d as int]) || s@[d as int] == '/');
                }
            }
        }
        if d == 0 || len - d < 2 {
            proof {
                if exists|k: int| ext_split_at(s@, k) {
                    let k = choose|k: int| ext_split_at(s@, k);
                    lemma_ext_split_is_first_dot(s@, k);
                }
            }
            return false;
        }
        let base_ok = check_path_base(s.substring_char(0, d));
        proof {
            assert(s@.subrange(0, d as int) =~= s@.take(d as int));
        }
        if !base_ok {
            proof {
                if exists|k: int| ext_split_at(s@, k) {
                    let k = choose|k: int| ext_split_at(s@, k);
                    lemma_ext_split_is_first_dot(s@, k);
                }
            }
            return false;
        }
        let mut j: usize = d + 1;
        while j < len
            invariant
                len == s@.len(),
                d == find_from(s@, '.', 0),
                1 <= d && d + 2 <= len,
                !valid_path_base(s@),
                valid_path_base(s@.take(d as int)),
                d + 1 <= j <= len,
                forall|k: int| d < k < j ==> is_word_char(s@[k]),
            decreases len - j,
        {
            if !word_char(s.get_char(j)) {
                proof {
                    if exists|k: int| ext_split_at(s@, k) {
                        let k = choose|k: int| ext_split_at(s@, k);
                        lemma_ext_split_is_first_dot(s@, k);
                        assert(k == d);
                        assert(d < j < s@.len());
                        assert(is_word_char(s@[j as int]));
                        assert(false);
                    }
                }
                return false;
            }
            j += 1;
        }
        proof {
            assert(ext_split_at(s@, d as int));
        }
        true
    }
}

/// An extension split can only sit at the first dot of the string.
proof fn lemma_ext_split_is_first_dot(s: Seq<char>, k: int)
    requires
        ext_split_at(s, k),
    ensures
        k == find_from(s, '.', 0),
{
    lemma_find_from(s, '.', 0);
    let d = find_from(s, '.', 0);
    assert(s[k] == '.');
    assert(d <= k);
    if d < k {
        assert(s.take(k)[d] == s[d]);
        assert(is_word_char(s[d]) || s[d] == '/');
        assert(false);
    }
}

/// A pair split can only sit at the first `=` of the pair.
proof fn lemma_pair_split_is_first_eq(p: Seq<char>, e: int)
    requires
        pair_split_at(p, e),
    ensures
        e == find_from(p, '=', 0),
{
    lemma_find_from(p, '=', 0);
    let f = find_from(p, '=', 0);
    assert(p[e] == '=');
    assert(f <= e);
    if f < e {
        assert(is_word_char(p[f]));
        assert(false);
    }
}

/// Decides [`valid_pair`].
pub fn check_pair(p: &str) -> (r: bool)
    ensures
        r == valid_pair(p@),
{
    let len = p.unicode_len();
    let e = find_char(p, '=');
    proof {
        lemma_find_from(p@, '=', 0);
        if exists|k: int| pair_split_at(p@, k) {
            let k = choose|k: int| pair_split_at(p@, k);
            lemma_pair_split_is_first_eq(p@, k);
        }
    }
    if e == 0 || e == len {
        return false;
    }
    let mut i: usize = 0;
    while i < len
        invariant
            len == p@.len(),
            i <= len,
            e == find_from(p@, '=', 0),
            1 <= e <= len - 1,
            forall|k: int| 0 <= k < i && k != e ==> is_word_char(p@[k]),
        decreases len - i,
    {
        if i != e && !word_char(p.get_char(i)) {
            proof {
                if exists|k: int| pair_split_at(p@, k) {
                    let k = choose|k: int| pair_split_at(p@, k);
                    lemma_pair_split_is_first_eq(p@, k);
                }
            }
            return false;
        }
        i += 1;
    }
    proof {
        assert(pair_split_at(p@, e as int));
    }
    true
}

/// Decides [`valid_query`].
pub fn check_query(q: &str) -> (r: bool)
    ensures
        r == valid_query(q@),
{
    let chunks = split_str(q, '&');
    let n = chunks.len();
    let ghost cs = split_on(q@, '&');
    let mut k: usize = 0;
    while k < n
        invariant
            chunks.deep_view() =~~= cs,
            cs == split_on(q@, '&'),
            n == cs.len(),
            k <= n,
            forall|m: int| 0 <= m < k ==> valid_pair(#[trigger] cs[m]),
        decreases n - k,
    {
        proof {
            assert(chunks.deep_view()[k as int] == chunks@[k as int]@);
        }
        if !check_pair(chunks[k].as_str()) {
            return false;
        }
        k += 1;
    }
    true
}

/// Decides the non-root part of [`valid_uri`]: a path, with or without a
/// query.
pub fn check_uri_pattern(u: &str) -> (r: bool)
    ensures
        r == (valid_head(u@) || exists|j: int| uri_split_at(u@, j)),
{
    let len = u.unicode_len();
    let j = find_char(u, '?');
    proof {
        lemma_find_from(u@, '?', 0);
    }
    if j == len {
        // No question mark anywhere, so no query split exists.
        proof {
            if exists|k: int| uri_split_at(u@, k) {
                let k = choose|k: int| uri_split_at(u@, k);
                assert(u@[k] == '?');
                assert(false);
            }
        }
        check_head(u)
    } else {
        proof {
            assert(!valid_head(u@)) by {
                lemma_head_has_no_qmark(u@);
            }
        }
        let head_ok = check_head(u.substring_char(0, j));
        proof {
            assert(u@.subrange(0, j as int) =~= u@.take(j as int));
        }
        let query_ok = if head_ok {
            check_query(u.substring_char(j + 1, len))
        } else {
            false
        };
        proof {
            assert(u@.subrange(j + 1, len as int) =~= u@.skip(j + 1));
            if head_ok && query_ok {
                assert(uri_split_at(u@, j as int));
            }
            if exists|k: int| uri_split_at(u@, k) {
                let k = choose|k: int| uri_split_at(u@, k);
                lemma_uri_split_is_first_qmark(u@, k);
            }
        }
        head_ok && query_ok
    }
}

/// A valid path part contains no question mark.
proof fn lemma_head_has_no_qmark(s: Seq<char>)
    ensures
        (exists|i: int| 0 <= i < s.len() && s[i] == '?') ==> !valid_head(s),
{
    if exists|i: int| 0 <= i < s.len() && s[i] == '?' {
        let i = choose|i: int| 0 <= i < s.len() && s[i] == '?';
        if valid_path_base(s) {
            assert(is_word_char(s[i]) || s[i] == '/');
            assert(false);
        }
        if exists|d: int| ext_split_at(s, d) {
            let d = choose|d: int| ext_split_at(s, d);
            if i < d {
                assert(s.take(d)[i] == s[i]);
                assert(is_word_char(s[i]) || s[i] == '/');
            } else if i == d {
            } else {
                assert(is_word_char(s[i]));
            }
            assert(false);
        }
    }
}

/// A query split can only sit at the first `?` of the URI.
proof fn lemma_uri_split_is_first_qmark(u: Seq<char>, k: int)
    requires
        uri_split_at(u, k),
    ensures
        k == find_from(u, '?', 0),
{
    lemma_find_from(u, '?', 0);
    let f = find_from(u, '?', 0);
    assert(u[k] == '?');
    assert(f <= k);
    if f < k {
        assert(u.take(k)[f] == u[f]);
        lemma_head_has_no_qmark(u.take(k));
        assert(false);
    }
}

/// Splits a query string into its parameter map.
pub fn parse_query_params(q: &str) -> (r: StringMap)
    ensures
        r.wf(),
        r.as_map() =~= params_of(q@),
{
    let chunks = split_str(q, '&');
    let n = chunks.len();
    let ghost cs = split_on(q@, '&');
    let mut m = StringMap::new();
    let mut k: usize = 0;
    proof {
        assert(cs.take(0) =~~= Seq::<Seq<char>>::empty());
    }
    while k < n
        invariant
            chunks.deep_view() =~~= cs,
            cs == split_on(q@, '&'),
            n == cs.len(),
            k <= n,
            m.wf(),
            m.as_map() =~= chunks_params(cs.take(k as int)),
        decreases n - k,
    {
        proof {
            assert(chunks.deep_view()[k as int] == chunks@[k as int]@);
        }
        let c: &String = &chunks[k];
        let clen = c.as_str().unicode_len();
        let e = find_char(c.as_str(), '=');
        proof {
            lemma_find_from(c@, '=', 0);
        }
        if e > 0 {
            let key = c.as_str().substring_char(0, e).to_owned();
            let val = if e == clen {
                String::new()
            } else {
                c.as_str().substring_char(e + 1, clen).to_owned()
            };
            proof {
                assert(c@.subrange(0, e as int) =~= c@.take(e as int));
                if e < clen {
                    assert(c@.subrange(e + 1, clen as int) =~= c@.skip(e + 1));
                }
            }
            m.insert(key, val);
        }
        proof {
            assert(cs.take(k + 1).drop_last() =~= cs.take(k as int));
            assert(cs.take(k + 1).last() == cs[k as int]);
        }
        k += 1;
    }
    proof {
        assert(cs.take(n as int) =~= cs);
    }
    m
}

} // verus!
