//! Small verified string utilities shared by the parsing and
//! serialization code: character classes, equality, searching.

use vstd::prelude::*;
use vstd::string::StrSliceExecFns;

verus! {

/// A word character of the URI grammar: letters, digits and underscore.
pub open spec fn is_word_char(c: char) -> bool {
    ('a' <= c && c <= 'z') || ('A' <= c && c <= 'Z') || ('0' <= c && c <= '9') || c == '_'
}

/// Decimal digit.
pub open spec fn is_digit_char(c: char) -> bool {
    '0' <= c && c <= '9'
}

/// Executable test for [`is_word_char`].
pub fn word_char(c: char) -> (r: bool)
    ensures
        r == is_word_char(c),
{
    ('a' <= c && c <= 'z') || ('A' <= c && c <= 'Z') || ('0' <= c && c <= '9') || c == '_'
}

/// String equality, decided character by character.
pub fn str_eq(a: &str, b: &str) -> (r: bool)
    ensures
        r == (a@ == b@),
{
    let alen = a.unicode_len();
    let blen = b.unicode_len();
    if alen != blen {
        assert(a@ != b@);
        return false;
    }
    let mut i: usize = 0;
    while i < alen
        invariant
            alen == a@.len(),
            alen == b@.len(),
            i <= alen,
            forall|j: int| 0 <= j < i ==> a@[j] == b@[j],
        decreases alen - i,
    {
        if a.get_char(i) != b.get_char(i) {
            return false;
        }
        i += 1;
    }
    assert(a@ =~= b@);
    true
}

/// Index of the first occurrence of `c` in `s` at or after position `i`;
/// `s.len()` when there is none.
pub open spec fn find_from(s: Seq<char>, c: char, i: int) -> int
    decreases s.len() - i when 0 <= i <= s.len()
{
    if i >= s.len() {
        s.len() as int
    } else if s[i] == c {
        i
    } else {
        find_from(s, c, i + 1)
    }
}

/// What [`find_from`] returns: the first hit, with nothing equal to `c` before it.
pub proof fn lemma_find_from(s: Seq<char>, c: char, i: int)
    requires
        0 <= i <= s.len(),
    ensures
        i <= find_from(s, c, i) <= s.len(),
        find_from(s, c, i) < s.len() ==> s[find_from(s, c, i)] == c,
        forall|k: int| i <= k < find_from(s, c, i) ==> s[k] != c,
    decreases s.len() - i,
{
    if i >= s.len() {
    } else if s[i] == c {
    } else {
        lemma_find_from(s, c, i + 1);
    }
}

/// Executable counterpart of [`find_from`].
pub fn find_char_from(s: &str, c: char, from: usize) -> (r: usize)
    requires
        from <= s@.len(),
    ensures
        r == find_from(s@, c, from as int),
{
    let len = s.unicode_len();
    let mut i: usize = from;
    while i < len
        invariant
            len == s@.len(),
            from <= i <= len,
            find_from(s@, c, from as int) == find_from(s@, c, i as int),
        decreases len - i,
    {
        if s.get_char(i) == c {
            return i;
        }
        i += 1;
    }
    i
}

/// Index of the first occurrence of `c` in `s`, or `s.len()`.
pub fn find_char(s: &str, c: char) -> (r: usize)
    ensures
        r == find_from(s@, c, 0),
{
    find_char_from(s, c, 0)
}

/// Searching the suffix `s.skip(i)` finds the same occurrence, shifted.
pub proof fn lemma_find_skip(s: Seq<char>, c: char, i: int)
    requires
        0 <= i <= s.len(),
    ensures
        find_from(s.skip(i), c, 0) == find_from(s, c, i) - i,
    decreases s.len() - i,
{
    lemma_find_skip_aux(s, c, i, 0);
}

proof fn lemma_find_skip_aux(s: Seq<char>, c: char, i: int, k: int)
    requires
        0 <= i <= s.len(),
        0 <= k <= s.len() - i,
    ensures
        find_from(s.skip(i), c, k) == find_from(s, c, i + k) - i,
    decreases s.len() - i - k,
{
    let t = s.skip(i);
    if k >= t.len() {
    } else if t[k] == c {
    } else {
        lemma_find_skip_aux(s, c, i, k + 1);
    }
}

/// The pieces of `s` between occurrences of `sep`, in order. An empty
/// string yields one empty piece, as `str::split` does.
pub open spec fn split_on(s: Seq<char>, sep: char) -> Seq<Seq<char>>
    decreases s.len(),
{
    if s.len() == 0 {
        seq![Seq::<char>::empty()]
    } else {
        let rest = split_on(s.drop_first(), sep);
        if s[0] == sep {
            seq![Seq::<char>::empty()] + rest
        } else {
            seq![seq![s[0]] + rest[0]] + rest.drop_first()
        }
    }
}

/// Splitting always yields at least one piece.
pub proof fn lemma_split_on_len(s: Seq<char>, sep: char)
    ensures
        split_on(s, sep).len() >= 1,
    decreases s.len(),
{
    if s.len() > 0 {
        lemma_split_on_len(s.drop_first(), sep);
    }
}

/// The first piece of a split runs to the first separator; the remaining
/// pieces are the split of what follows it.
pub proof fn lemma_split_on_peel(s: Seq<char>, sep: char)
    ensures
        find_from(s, sep, 0) == s.len() ==> split_on(s, sep) =~~= seq![s],
        find_from(s, sep, 0) < s.len() ==> split_on(s, sep) =~~= seq![
            s.take(find_from(s, sep, 0)),
        ] + split_on(s.skip(find_from(s, sep, 0) + 1), sep),
    decreases s.len(),
{
    if s.len() == 0 {
        assert(split_on(s, sep) =~~= seq![s]);
    } else if s[0] == sep {
        assert(s.skip(1) =~= s.drop_first());
        assert(s.take(0) =~= Seq::<char>::empty());
    } else {
        let d = s.drop_first();
        lemma_split_on_peel(d, sep);
        lemma_split_on_len(d, sep);
        lemma_find_from(s, sep, 0);
        lemma_find_from(d, sep, 0);
        assert(find_from(s, sep, 0) == find_from(s, sep, 1));
        lemma_find_shift(s, sep);
        let j = find_from(s, sep, 0);
        let jd = find_from(d, sep, 0);
        assert(j == jd + 1);
        if jd == d.len() {
            assert(split_on(d, sep) =~~= seq![d]);
            assert(seq![s[0]] + d =~= s);
            assert(split_on(s, sep) =~~= seq![s]);
        } else {
            assert(split_on(d, sep) =~~= seq![d.take(jd)] + split_on(d.skip(jd + 1), sep));
            assert(seq![s[0]] + d.take(jd) =~= s.take(j));
            assert(d.skip(jd + 1) =~= s.skip(j + 1));
            assert(split_on(s, sep) =~~= seq![s.take(j)] + split_on(s.skip(j + 1), sep));
        }
    }
}

/// Dropping the first character shifts the position of the first hit by one.
pub proof fn lemma_find_shift(s: Seq<char>, c: char)
    requires
        s.len() > 0,
        s[0] != c,
    ensures
        find_from(s, c, 0) == find_from(s.drop_first(), c, 0) + 1,
    decreases s.len(),
{
    lemma_find_shift_aux(s, c, 1);
}

proof fn lemma_find_shift_aux(s: Seq<char>, c: char, i: int)
    requires
        1 <= i <= s.len(),
    ensures
        find_from(s, c, i) == find_from(s.drop_first(), c, i - 1) + 1,
    decreases s.len() - i,
{
    if i >= s.len() {
    } else if s[i] == c {
    } else {
        lemma_find_shift_aux(s, c, i + 1);
    }
}

/// Whitespace, for splitting the request line into its tokens.
pub open spec fn is_space_char(c: char) -> bool {
    c == ' ' || c == '\t' || c == '\r' || c == '\n'
}

/// The maximal runs of non-whitespace characters of `s`, in order.
pub open spec fn tokens_of(s: Seq<char>) -> Seq<Seq<char>>
    decreases s.len(),
{
    if s.len() == 0 {
        Seq::<Seq<char>>::empty()
    } else {
        let rest = tokens_of(s.drop_first());
        if is_space_char(s[0]) {
            rest
        } else if s.len() == 1 || is_space_char(s[1]) {
            seq![seq![s[0]]] + rest
        } else {
            seq![seq![s[0]] + rest[0]] + rest.drop_first()
        }
    }
}

/// Skipping a whitespace character leaves the tokens unchanged.
pub proof fn lemma_tokens_skip_space(s: Seq<char>, i: int)
    requires
        0 <= i < s.len(),
        is_space_char(s[i]),
    ensures
        tokens_of(s.skip(i)) == tokens_of(s.skip(i + 1)),
{
    assert(s.skip(i).drop_first() =~= s.skip(i + 1));
    assert(s.skip(i)[0] == s[i]);
}

/// A maximal non-whitespace run `s[i..j]` is the first token of `s.skip(i)`.
pub proof fn lemma_tokens_peel(s: Seq<char>, i: int, j: int)
    requires
        0 <= i < j <= s.len(),
        forall|k: int| i <= k < j ==> !is_space_char(s[k]),
        j == s.len() || is_space_char(s[j]),
    ensures
        tokens_of(s.skip(i)) =~~= seq![s.subrange(i, j)] + tokens_of(s.skip(j)),
    decreases j - i,
{
    let t = s.skip(i);
    assert(t.drop_first() =~= s.skip(i + 1));
    assert(t[0] == s[i]);
    if j == i + 1 {
        if j == s.len() {
            assert(t.len() == 1);
            assert(tokens_of(t) =~~= seq![seq![s[i]]] + tokens_of(s.skip(j)));
        } else {
            assert(t.len() > 1 && t[1] == s[i + 1]);
            assert(is_space_char(t[1]));
            assert(tokens_of(t) =~~= seq![seq![s[i]]] + tokens_of(s.skip(j)));
        }
        assert(seq![s[i]] =~= s.subrange(i, j));
    } else {
        lemma_tokens_peel(s, i + 1, j);
        assert(t.len() > 1 && t[1] == s[i + 1]);
        assert(!is_space_char(t[1]));
        let rest = tokens_of(s.skip(i + 1));
        assert(rest =~~= seq![s.subrange(i + 1, j)] + tokens_of(s.skip(j)));
        assert(rest[0] == s.subrange(i + 1, j));
        assert(seq![s[i]] + s.subrange(i + 1, j) =~= s.subrange(i, j));
        assert(rest.drop_first() =~~= tokens_of(s.skip(j)));
    }
}

/// `s` without its leading slashes.
pub open spec fn trim_leading_slashes(s: Seq<char>) -> Seq<char>
    decreases s.len(),
{
    if s.len() > 0 && s[0] == '/' {
        trim_leading_slashes(s.drop_first())
    } else {
        s
    }
}

/// `s` without its trailing slashes.
pub open spec fn trim_trailing_slashes(s: Seq<char>) -> Seq<char>
    decreases s.len(),
{
    if s.len() > 0 && s.last() == '/' {
        trim_trailing_slashes(s.drop_last())
    } else {
        s
    }
}

/// `s` without leading and trailing slashes, as `str::trim_matches('/')` yields.
pub open spec fn trim_slashes(s: Seq<char>) -> Seq<char> {
    trim_trailing_slashes(trim_leading_slashes(s))
}

proof fn lemma_trim_leading_is_skip(s: Seq<char>, a: int)
    requires
        0 <= a <= s.len(),
        forall|k: int| 0 <= k < a ==> s[k] == '/',
        a == s.len() || s[a] != '/',
    ensures
        trim_leading_slashes(s) == s.skip(a),
    decreases a,
{
    if a == 0 {
        assert(s.skip(0) =~= s);
    } else {
        assert(s[0] == '/');
        let d = s.drop_first();
        assert(forall|k: int| 0 <= k < a - 1 ==> d[k] == s[k + 1] && s[k + 1] == '/');
        lemma_trim_leading_is_skip(d, a - 1);
        assert(d.skip(a - 1) =~= s.skip(a));
    }
}

proof fn lemma_trim_trailing_is_take(s: Seq<char>, b: int)
    requires
        0 <= b <= s.len(),
        forall|k: int| b <= k < s.len() ==> s[k] == '/',
        b == 0 || s[b - 1] != '/',
    ensures
        trim_trailing_slashes(s) == s.take(b),
    decreases s.len() - b,
{
    if b == s.len() {
        assert(s.take(b) =~= s);
    } else {
        assert(s.last() == '/');
        let d = s.drop_last();
        lemma_trim_trailing_is_take(d, b);
        assert(d.take(b) =~= s.take(b));
    }
}

/// Executable slash trimming: the trimmed middle of `s` as a fresh string.
pub fn trim_slashes_exec(s: &str) -> (r: String)
    ensures
        r@ == trim_slashes(s@),
{
    let len = s.unicode_len();
    let mut a: usize = 0;
    while a < len && s.get_char(a) == '/'
        invariant
            len == s@.len(),
            a <= len,
            forall|k: int| 0 <= k < a ==> s@[k] == '/',
        decreases len - a,
    {
        a += 1;
    }
    proof {
        lemma_trim_leading_is_skip(s@, a as int);
    }
    let mut b: usize = len;
    while b > a && s.get_char(b - 1) == '/'
        invariant
            len == s@.len(),
            a <= b <= len,
            forall|k: int| b <= k < len ==> s@[k] == '/',
        decreases b,
    {
        b -= 1;
    }
    let t = s.substring_char(a, b);
    proof {
        let m = s@.skip(a as int);
        assert(forall|k: int| b - a <= k < m.len() ==> m[k] == s@[k + a] && s@[k + a] == '/');
        assert(b - a == 0 || m[b - a - 1] != '/');
        lemma_trim_trailing_is_take(m, b - a);
        assert(m.take(b - a) =~= s@.subrange(a as int, b as int));
    }
    t.to_owned()
}

/// Executable counterpart of [`split_on`]: the pieces as fresh strings.
pub fn split_str(s: &str, sep: char) -> (r: Vec<String>)
    ensures
        r.deep_view() =~~= split_on(s@, sep),
{
    let len = s.unicode_len();
    let mut out: Vec<String> = Vec::new();
    let mut i: usize = 0;
    proof {
        assert(s@.skip(0) =~= s@);
        assert(out.deep_view() =~~= Seq::<Seq<char>>::empty());
        assert(out.deep_view() + split_on(s@, sep) =~~= split_on(s@, sep));
    }
    loop
        invariant
            len == s@.len(),
            i <= len,
            split_on(s@, sep) =~~= out.deep_view() + split_on(s@.skip(i as int), sep),
        decreases len - i,
    {
        let j = find_char_from(s, sep, i);
        proof {
            lemma_find_from(s@, sep, i as int);
            lemma_find_skip(s@, sep, i as int);
            lemma_split_on_peel(s@.skip(i as int), sep);
        }
        let piece = s.substring_char(i, j).to_owned();
        let ghost old_dv = out.deep_view();
        out.push(piece);
        proof {
            assert(out.deep_view() =~~= old_dv + seq![s@.subrange(i as int, j as int)]);
        }
        if j == len {
            proof {
                assert(s@.skip(i as int) =~= s@.subrange(i as int, j as int));
                assert(split_on(s@.skip(i as int), sep) =~~= seq![s@.skip(i as int)]);
            }
            return out;
        }
        proof {
            assert(s@.skip(i as int).take(j - i) =~= s@.subrange(i as int, j as int));
            assert(s@.skip(i as int).skip(j - i + 1) =~= s@.skip(j + 1));
        }
        i = j + 1;
    }
}

/// A line with one trailing carriage return removed, as the line splitter
/// leaves it after cutting the buffer on line feeds.
pub open spec fn strip_cr(l: Seq<char>) -> Seq<char> {
    if l.len() > 0 && l.last() == '\r' {
        l.drop_last()
    } else {
        l
    }
}

/// Executable counterpart of [`strip_cr`].
pub fn strip_cr_exec(l: &str) -> (r: String)
    ensures
        r@ == strip_cr(l@),
{
    let len = l.unicode_len();
    if len > 0 && l.get_char(len - 1) == '\r' {
        let t = l.substring_char(0, len - 1);
        proof {
            assert(l@.subrange(0, len - 1) =~= l@.drop_last());
        }
        t.to_owned()
    } else {
        l.to_owned()
    }
}

/// Relies on std's `String::push`: appends exactly the one character.
#[verifier::external_body]
pub fn push_char(s: &mut String, c: char)
    ensures
        final(s)@ == old(s)@.push(c),
{
    s.push(c);
}

/// ASCII lower-casing of one character: `A`..`Z` map down, all else stays.
pub open spec fn lower_char(c: char) -> char {
    if 'A' <= c && c <= 'Z' {
        ((c as u8) + 32) as char
    } else {
        c
    }
}

/// ASCII lower-casing of a whole string.
pub open spec fn lower_seq(s: Seq<char>) -> Seq<char> {
    Seq::new(s.len(), |i: int| lower_char(s[i]))
}

/// Lower-casing is idempotent: a lowered string lowers to itself.
pub proof fn lemma_lower_idempotent(s: Seq<char>)
    ensures
        lower_seq(lower_seq(s)) == lower_seq(s),
{
    assert forall|i: int| 0 <= i < s.len() implies lower_char(lower_char(s[i])) == lower_char(
        s[i],
    ) by {
        let c = s[i];
        if 'A' <= c && c <= 'Z' {
            assert(c as u8 >= 65 && c as u8 <= 90);
            assert(((c as u8) + 32) as char >= 'a');
        }
    }
    assert(lower_seq(lower_seq(s)) =~= lower_seq(s));
}

/// Executable counterpart of [`lower_seq`].
pub fn ascii_lowercase(s: &str) -> (r: String)
    ensures
        r@ == lower_seq(s@),
{
    let len = s.unicode_len();
    let mut out = String::new();
    let mut i: usize = 0;
    while i < len
        invariant
            len == s@.len(),
            i <= len,
            out@ =~= lower_seq(s@).take(i as int),
        decreases len - i,
    {
        let c = s.get_char(i);
        let lc: char = if 'A' <= c && c <= 'Z' {
            ((c as u8) + 32) as char
        } else {
            c
        };
        push_char(&mut out, lc);
        proof {
            assert(out@ =~= lower_seq(s@).take(i + 1));
        }
        i += 1;
    }
    assert(out@ =~= lower_seq(s@));
    out
}

/// The digit character for `d`, for `0 <= d <= 9`.
pub open spec fn digit_char(d: int) -> char {
    if d == 0 {
        '0'
    } else if d == 1 {
        '1'
    } else if d == 2 {
        '2'
    } else if d == 3 {
        '3'
    } else if d == 4 {
        '4'
    } else if d == 5 {
        '5'
    } else if d == 6 {
        '6'
    } else if d == 7 {
        '7'
    } else if d == 8 {
        '8'
    } else {
        '9'
    }
}

/// The decimal rendering of `n`, without leading zeros.
pub open spec fn dec_str(n: nat) -> Seq<char>
    decreases n,
{
    if n < 10 {
        seq![digit_char(n as int)]
    } else {
        dec_str(n / 10) + seq![digit_char((n % 10) as int)]
    }
}

/// Executable decimal rendering of an unsigned number.
pub fn usize_to_string(n: usize) -> (r: String)
    ensures
        r@ == dec_str(n as nat),
    decreases n,
{
    if n < 10 {
        let mut out = String::new();
        push_char(&mut out, digit_char_exec(n as u8));
        proof {
            assert(out@ =~= dec_str(n as nat));
        }
        out
    } else {
        let mut out = usize_to_string(n / 10);
        push_char(&mut out, digit_char_exec((n % 10) as u8));
        proof {
            assert(out@ =~= dec_str(n as nat));
        }
        out
    }
}

/// Executable counterpart of [`digit_char`].
pub fn digit_char_exec(d: u8) -> (r: char)
    requires
        d <= 9,
    ensures
        r == digit_char(d as int),
{
    match d {
        0 => '0',
        1 => '1',
        2 => '2',
        3 => '3',
        4 => '4',
        5 => '5',
        6 => '6',
        7 => '7',
        8 => '8',
        _ => '9',
    }
}

/// The numeric value of a string of decimal digits, by place value.
pub open spec fn dec_val(s: Seq<char>) -> nat
    decreases s.len(),
{
    if s.len() == 0 {
        0
    } else {
        (dec_val(s.drop_last()) * 10 + (s.last() as int - 48)) as nat
    }
}

/// A non-empty string of decimal digits.
pub open spec fn all_digits(s: Seq<char>) -> bool {
    forall|i: int| 0 <= i < s.len() ==> is_digit_char(s[i])
}

proof fn lemma_dec_val_prefix(s: Seq<char>, i: int)
    requires
        0 <= i <= s.len(),
        all_digits(s),
    ensures
        dec_val(s.take(i)) <= dec_val(s),
    decreases s.len() - i,
{
    if i < s.len() {
        lemma_dec_val_prefix(s, i + 1);
        assert(s.take(i + 1).drop_last() =~= s.take(i));
        assert(s.take(i + 1).last() == s[i]);
        assert(dec_val(s.take(i)) <= dec_val(s.take(i + 1)));
    } else {
        assert(s.take(i) =~= s);
    }
}

/// Parses a non-negative decimal integer, as the `content-length` header
/// demands. `Ok` exactly when the string is one or more digits whose value
/// fits in `usize`; the error reports nothing more.
pub fn parse_usize(s: &str) -> (r: Result<usize, ()>)
    ensures
        r is Ok <==> s@.len() > 0 && all_digits(s@) && dec_val(s@) <= usize::MAX,
        r is Ok ==> r->Ok_0 == dec_val(s@),
{
    let len = s.unicode_len();
    if len == 0 {
        return Err(());
    }
    let mut acc: usize = 0;
    let mut i: usize = 0;
    while i < len
        invariant
            len == s@.len(),
            i <= len,
            forall|k: int| 0 <= k < i ==> is_digit_char(s@[k]),
            acc == dec_val(s@.take(i as int)),
        decreases len - i,
    {
        let c = s.get_char(i);
        if !('0' <= c && c <= '9') {
            return Err(());
        }
        let d: usize = ((c as u8) - 48) as usize;
        if acc > (usize::MAX - d) / 10 {
            proof {
                assert(s@.take(i + 1).drop_last() =~= s@.take(i as int));
                assert(s@.take(i + 1).last() == s@[i as int]);
                assert(dec_val(s@.take(i + 1)) == acc * 10 + d);
                assert(acc * 10 + d > usize::MAX) by (nonlinear_arith)
                    requires
                        acc > (usize::MAX - d) / 10,
                        d <= 9,
                ;
                if all_digits(s@) {
                    lemma_dec_val_prefix(s@, i + 1);
                }
            }
            return Err(());
        }
        proof {
            assert(acc * 10 + d <= usize::MAX) by (nonlinear_arith)
                requires
                    acc <= (usize::MAX - d) / 10,
                    d <= 9,
            ;
            assert(s@.take(i + 1).drop_last() =~= s@.take(i as int));
            assert(s@.take(i + 1).last() == s@[i as int]);
        }
        acc = acc * 10 + d;
        i += 1;
    }
    proof {
        assert(s@.take(len as int) =~= s@);
    }
    Ok(acc)
}

} // verus!
