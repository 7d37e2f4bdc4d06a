//! Verified text routines: trimming, substring search, replacement, and
//! line-based splitting and joining. All contracts are stated over the
//! `Seq<char>` views of strings.

use vstd::prelude::*;
use vstd::string::StrSliceExecFns;
use vstd::string::StringExecFns;

verus! {

/// Blank characters recognized by the trimming routines: the ASCII
/// whitespace characters that occur in source text. Characters outside
/// this set (a no-break space, say) are not blank to this library, so
/// lines padded with them keep that padding.
pub open spec fn is_blank(c: char) -> bool {
    c == ' ' || c == '\t' || c == '\r' || c == '\n'
}

/// Executable test matching `is_blank`.
fn blank_char(c: char) -> (b: bool)
    ensures
        b == is_blank(c),
{
    c == ' ' || c == '\t' || c == '\r' || c == '\n'
}

/// The sequence with its leading blank characters removed.
pub open spec fn trim_start_spec(s: Seq<char>) -> Seq<char>
    decreases s.len(),
{
    if s.len() == 0 {
        s
    } else if is_blank(s[0]) {
        trim_start_spec(s.drop_first())
    } else {
        s
    }
}

/// The sequence with its trailing blank characters removed.
pub open spec fn trim_end_spec(s: Seq<char>) -> Seq<char>
    decreases s.len(),
{
    if s.len() == 0 {
        s
    } else if is_blank(s.last()) {
        trim_end_spec(s.drop_last())
    } else {
        s
    }
}

/// The sequence with leading and trailing blank characters removed.
pub open spec fn trim_spec(s: Seq<char>) -> Seq<char> {
    trim_end_spec(trim_start_spec(s))
}

proof fn lemma_trim_start_skip(s: Seq<char>, i: int)
    requires
        0 <= i <= s.len(),
        forall|k: int| 0 <= k < i ==> is_blank(s[k]),
        i == s.len() || !is_blank(s[i]),
    ensures
        trim_start_spec(s) == s.skip(i),
    decreases i,
{
    if i == 0 {
        assert(s.skip(0) =~= s);
    } else {
        assert(is_blank(s[0]));
        lemma_trim_start_skip(s.drop_first(), i - 1);
        assert(s.drop_first().skip(i - 1) =~= s.skip(i));
    }
}

proof fn lemma_trim_end_take(s: Seq<char>, j: int)
    requires
        0 <= j <= s.len(),
        forall|k: int| j <= k < s.len() ==> is_blank(s[k]),
        j == 0 || !is_blank(s[j - 1]),
    ensures
        trim_end_spec(s) == s.take(j),
    decreases s.len(),
{
    if j == s.len() {
        assert(s.take(j) =~= s);
    } else {
        assert(is_blank(s.last()));
        lemma_trim_end_take(s.drop_last(), j);
        assert(s.drop_last().take(j) =~= s.take(j));
    }
}

/// Returns a copy of `s` with leading and trailing blank characters removed.
pub fn trim_str(s: &str) -> (r: String)
    ensures
        r@ == trim_spec(s@),
{
    let n = s.unicode_len();
    let mut i: usize = 0;
    while i < n && blank_char(s.get_char(i))
        invariant
            0 <= i <= n,
            n == s@.len(),
            forall|k: int| 0 <= k < i ==> is_blank(s@[k]),
        decreases n - i,
    {
        i = i + 1;
    }
    let mut j: usize = n;
    while j > i && blank_char(s.get_char(j - 1))
        invariant
            i <= j <= n,
            n == s@.len(),
            forall|k: int| j <= k < n ==> is_blank(s@[k]),
        decreases j,
    {
        j = j - 1;
    }
    proof {
        lemma_trim_start_skip(s@, i as int);
        if j == i {
            lemma_trim_end_take(s@.skip(i as int), 0);
        } else {
            lemma_trim_end_take(s@.skip(i as int), j - i);
        }
        assert(s@.skip(i as int).take(j - i) =~= s@.subrange(i as int, j as int));
    }
    let sub = s.substring_char(i, j);
    sub.to_owned()
}

/// Returns a copy of `s` with its leading blank characters removed.
pub fn trim_start_str(s: &str) -> (r: String)
    ensures
        r@ == trim_start_spec(s@),
{
    let n = s.unicode_len();
    let mut i: usize = 0;
    while i < n && blank_char(s.get_char(i))
        invariant
            0 <= i <= n,
            n == s@.len(),
            forall|k: int| 0 <= k < i ==> is_blank(s@[k]),
        decreases n - i,
    {
        i = i + 1;
    }
    proof {
        lemma_trim_start_skip(s@, i as int);
        assert(s@.skip(i as int) =~= s@.subrange(i as int, n as int));
    }
    s.substring_char(i, n).to_owned()
}

/// The first index at or after `i` where `p` occurs in `s`, if any.
pub open spec fn find_at(s: Seq<char>, p: Seq<char>, i: int) -> Option<int>
    decreases s.len() - i,
{
    if i < 0 || i + p.len() > s.len() {
        None
    } else if p.len() == 0 || s.subrange(i, i + p.len()) == p {
        Some(i)
    } else {
        find_at(s, p, i + 1)
    }
}

/// True when `p` occurs somewhere in `s`.
pub open spec fn contains_seq(s: Seq<char>, p: Seq<char>) -> bool {
    find_at(s, p, 0) is Some
}

/// True when `p` is a prefix of `s`.
pub open spec fn starts_with_seq(s: Seq<char>, p: Seq<char>) -> bool {
    p.len() <= s.len() && s.subrange(0, p.len() as int) == p
}

pub proof fn lemma_find_at_bounds(s: Seq<char>, p: Seq<char>, i: int)
    ensures
        find_at(s, p, i) matches Some(k) ==> {
            &&& i <= k
            &&& k + p.len() <= s.len()
            &&& s.subrange(k, k + p.len()) == p
        },
    decreases s.len() - i,
{
    if !(i < 0 || i + p.len() > s.len()) && !(p.len() == 0 || s.subrange(i, i + p.len()) == p) {
        lemma_find_at_bounds(s, p, i + 1);
    }
    match find_at(s, p, i) {
        Some(k) => {
            if p.len() == 0 {
                assert(s.subrange(k, k + p.len()) =~= p);
            }
        },
        None => {},
    }
}

proof fn lemma_find_at_none(s: Seq<char>, p: Seq<char>, i: int, j: int)
    requires
        find_at(s, p, i) is None,
        i <= j,
        0 <= i,
        j + p.len() <= s.len(),
    ensures
        s.subrange(j, j + p.len()) != p,
    decreases s.len() - i,
{
    if i < j {
        lemma_find_at_none(s, p, i + 1, j);
    }
}

/// Shifting the search start commutes with dropping a prefix of `s`.
proof fn lemma_find_at_shift(s: Seq<char>, p: Seq<char>, d: int, i: int)
    requires
        0 <= d <= s.len(),
        d <= i,
    ensures
        match find_at(s, p, i) {
            Some(k) => find_at(s.skip(d), p, i - d) == Some(k - d),
            None => find_at(s.skip(d), p, i - d) is None,
        },
    decreases s.len() - i,
{
    if i < 0 || i + p.len() > s.len() {
        assert(s.skip(d).len() == s.len() - d);
    } else {
        assert(s.skip(d).subrange(i - d, i - d + p.len()) =~= s.subrange(i, i + p.len()));
        if !(p.len() == 0 || s.subrange(i, i + p.len()) == p) {
            lemma_find_at_shift(s, p, d, i + 1);
        }
    }
}

proof fn lemma_trim_start_no_lead(s: Seq<char>)
    ensures
        trim_start_spec(s).len() > 0 ==> !is_blank(trim_start_spec(s)[0]),
    decreases s.len(),
{
    if s.len() > 0 && is_blank(s[0]) {
        lemma_trim_start_no_lead(s.drop_first());
    }
}

proof fn lemma_trim_end_no_trail(x: Seq<char>)
    ensures
        trim_end_spec(x).len() > 0 ==> !is_blank(trim_end_spec(x).last()),
    decreases x.len(),
{
    if x.len() > 0 && is_blank(x.last()) {
        lemma_trim_end_no_trail(x.drop_last());
    }
}

/// A trimmed text carries no blank character at either end: what the
/// trimming routines promise of every documentation line they produce.
pub proof fn lemma_trim_no_edge_blanks(s: Seq<char>)
    ensures
        trim_spec(s).len() > 0 ==> !is_blank(trim_spec(s)[0]) && !is_blank(trim_spec(s).last()),
{
    let x = trim_start_spec(s);
    lemma_trim_start_no_lead(s);
    lemma_trim_end_no_trail(x);
    lemma_trim_end_is_prefix(x);
    if trim_spec(s).len() > 0 {
        assert(trim_spec(s)[0] == x.take(trim_end_spec(x).len() as int)[0]);
        assert(trim_spec(s)[0] == x[0]);
    }
}

/// A match anywhere in `s` shows that `s` contains `p`.
pub proof fn lemma_contains_of_match(s: Seq<char>, p: Seq<char>, k: int)
    requires
        0 <= k,
        k + p.len() <= s.len(),
        s.subrange(k, k + p.len()) == p,
    ensures
        contains_seq(s, p),
{
    if find_at(s, p, 0) is None {
        lemma_find_at_none(s, p, 0, k);
    }
}

/// The sequence with trailing blanks removed is a prefix of the sequence.
pub proof fn lemma_trim_end_is_prefix(x: Seq<char>)
    ensures
        trim_end_spec(x).len() <= x.len(),
        trim_end_spec(x) == x.take(trim_end_spec(x).len() as int),
    decreases x.len(),
{
    if x.len() == 0 {
        assert(x.take(0) =~= x);
    } else if is_blank(x.last()) {
        lemma_trim_end_is_prefix(x.drop_last());
        assert(x.drop_last().take(trim_end_spec(x).len() as int) =~= x.take(
            trim_end_spec(x).len() as int,
        ));
    } else {
        assert(x.take(x.len() as int) =~= x);
    }
}

/// True when `p` occurs in `s` at exactly position `i`.
fn match_at(s: &str, p: &str, i: usize, sn: usize, pn: usize) -> (b: bool)
    requires
        sn == s@.len(),
        pn == p@.len(),
        i + pn <= sn,
    ensures
        b == (s@.subrange(i as int, i + pn) == p@),
{
    let mut k: usize = 0;
    while k < pn
        invariant
            0 <= k <= pn,
            sn == s@.len(),
            pn == p@.len(),
            i + pn <= sn,
            forall|t: int| 0 <= t < k ==> s@[i + t] == p@[t],
        decreases pn - k,
    {
        if s.get_char(i + k) != p.get_char(k) {
            assert(s@.subrange(i as int, i + pn) != p@) by {
                assert(s@.subrange(i as int, i + pn)[k as int] == s@[i + k]);
            }
            return false;
        }
        k = k + 1;
    }
    assert(s@.subrange(i as int, i + pn) =~= p@);
    true
}

/// Returns the first position at or after `from` where `p` occurs in `s`.
pub fn find_from(s: &str, p: &str, from: usize) -> (r: Option<usize>)
    requires
        from <= s@.len(),
    ensures
        match r {
            Some(k) => find_at(s@, p@, from as int) == Some(k as int) && from <= k,
            None => find_at(s@, p@, from as int) is None,
        },
{
    let sn = s.unicode_len();
    let pn = p.unicode_len();
    if pn == 0 {
        return Some(from);
    }
    if pn > sn || from > sn - pn {
        return None;
    }
    let mut i: usize = from;
    while i <= sn - pn
        invariant
            from <= i,
            i <= sn - pn + 1,
            0 < pn <= sn,
            sn == s@.len(),
            pn == p@.len(),
            find_at(s@, p@, from as int) == find_at(s@, p@, i as int),
        decreases sn - i,
    {
        if match_at(s, p, i, sn, pn) {
            return Some(i);
        }
        i = i + 1;
    }
    None
}

/// True when `p` is a prefix of `s`.
pub fn starts_with_str(s: &str, p: &str) -> (b: bool)
    ensures
        b == starts_with_seq(s@, p@),
{
    let sn = s.unicode_len();
    let pn = p.unicode_len();
    if pn > sn {
        return false;
    }
    match_at(s, p, 0, sn, pn)
}

/// `s` with every occurrence of `p` replaced by `r`, scanning left to
/// right and resuming after each replacement, as `str::replace` does.
/// An empty pattern replaces nothing.
pub open spec fn replace_all_spec(s: Seq<char>, p: Seq<char>, r: Seq<char>) -> Seq<char>
    decreases s.len(),
{
    if p.len() == 0 || s.len() < p.len() {
        s
    } else if s.subrange(0, p.len() as int) == p {
        r + replace_all_spec(s.skip(p.len() as int), p, r)
    } else {
        seq![s[0]] + replace_all_spec(s.drop_first(), p, r)
    }
}

/// Returns `s` with every occurrence of `p` replaced by `r`.
pub fn replace_all(s: &str, p: &str, r: &str) -> (out: String)
    ensures
        out@ == replace_all_spec(s@, p@, r@),
{
    let sn = s.unicode_len();
    let pn = p.unicode_len();
    let mut out = String::new();
    if pn == 0 {
        out.append(s);
        return out;
    }
    let mut cur: usize = 0;
    proof {
        assert(s@.skip(0) =~= s@);
        assert(out@ + replace_all_spec(s@, p@, r@) =~= replace_all_spec(s@, p@, r@));
    }
    while cur < sn
        invariant
            cur <= sn,
            sn == s@.len(),
            pn == p@.len(),
            0 < pn,
            out@ + replace_all_spec(s@.skip(cur as int), p@, r@) == replace_all_spec(s@, p@, r@),
        decreases sn - cur,
    {
        if pn <= sn - cur && match_at(s, p, cur, sn, pn) {
            out.append(r);
            proof {
                assert(s@.skip(cur as int).subrange(0, pn as int) =~= s@.subrange(
                    cur as int,
                    cur + pn,
                ));
                assert(s@.skip(cur as int).skip(pn as int) =~= s@.skip(cur + pn));
            }
            cur = cur + pn;
        } else {
            let c = s.substring_char(cur, cur + 1);
            out.append(c);
            proof {
                if pn <= sn - cur {
                    assert(s@.skip(cur as int).subrange(0, pn as int) =~= s@.subrange(
                        cur as int,
                        cur + pn,
                    ));
                }
                assert(s@.skip(cur as int).drop_first() =~= s@.skip(cur + 1));
                assert(seq![s@.skip(cur as int)[0]] =~= s@.subrange(cur as int, cur + 1));
            }
            cur = cur + 1;
        }
    }
    proof {
        assert(s@.skip(cur as int) =~= Seq::<char>::empty());
    }
    out
}

/// A line with one trailing carriage return removed, as `str::lines` does
/// for lines that end in `\r\n`.
pub open spec fn strip_cr(l: Seq<char>) -> Seq<char> {
    if l.len() > 0 && l.last() == '\r' {
        l.drop_last()
    } else {
        l
    }
}

/// The lines of `s`: split on `'\n'`, a `'\r'` before the break removed,
/// and no empty final line after a trailing break, as `str::lines` does.
pub open spec fn split_lines(s: Seq<char>) -> Seq<Seq<char>>
    decreases s.len(),
{
    if s.len() == 0 {
        Seq::empty()
    } else {
        match find_at(s, seq!['\n'], 0) {
            None => seq![s],
            Some(i) => if 0 <= i && i + 1 <= s.len() {
                seq![strip_cr(s.subrange(0, i))] + split_lines(s.skip(i + 1))
            } else {
                seq![s]
            },
        }
    }
}

/// Splits `s` into its lines.
pub fn split_into_lines(s: &str) -> (out: Vec<String>)
    ensures
        out.deep_view() == split_lines(s@),
{
    let sn = s.unicode_len();
    let mut out: Vec<String> = Vec::new();
    let mut pos: usize = 0;
    proof {
        reveal_strlit("\n");
        assert("\n"@ =~= seq!['\n']);
        assert(s@.skip(0) =~= s@);
        assert(out.deep_view() =~= Seq::<Seq<char>>::empty());
        assert(out.deep_view() + split_lines(s@) =~= split_lines(s@));
    }
    while pos < sn
        invariant
            pos <= sn,
            sn == s@.len(),
            out.deep_view() + split_lines(s@.skip(pos as int)) == split_lines(s@),
        decreases sn - pos,
    {
        let ghost prev = out.deep_view();
        let ghost tail = s@.skip(pos as int);
        match find_from(s, "\n", pos) {
            Some(i) => {
                proof {
                    reveal_strlit("\n");
                    assert("\n"@ =~= seq!['\n']);
                    lemma_find_at_bounds(s@, seq!['\n'], pos as int);
                    lemma_find_at_shift(s@, seq!['\n'], pos as int, pos as int);
                }
                let end = if i > pos && s.get_char(i - 1) == '\r' {
                    i - 1
                } else {
                    i
                };
                let line = s.substring_char(pos, end).to_owned();
                out.push(line);
                proof {
                    assert(tail.subrange(0, i - pos) =~= s@.subrange(pos as int, i as int));
                    assert(tail.skip(i - pos + 1) =~= s@.skip(i + 1));
                    assert(strip_cr(s@.subrange(pos as int, i as int)) =~= s@.subrange(
                        pos as int,
                        end as int,
                    ));
                    assert(out.deep_view() =~= prev.push(s@.subrange(pos as int, end as int)));
                    assert(split_lines(tail) == seq![s@.subrange(pos as int, end as int)]
                        + split_lines(s@.skip(i + 1)));
                    assert(out.deep_view() + split_lines(s@.skip(i + 1)) =~= prev + split_lines(
                        tail,
                    ));
                }
                pos = i + 1;
            },
            None => {
                proof {
                    reveal_strlit("\n");
                    assert("\n"@ =~= seq!['\n']);
                    lemma_find_at_shift(s@, seq!['\n'], pos as int, pos as int);
                }
                let line = s.substring_char(pos, sn).to_owned();
                out.push(line);
                proof {
                    assert(tail =~= s@.subrange(pos as int, sn as int));
                    assert(split_lines(tail) == seq![tail]);
                    assert(out.deep_view() =~= prev.push(tail));
                    assert(s@.skip(sn as int) =~= Seq::<char>::empty());
                    assert(out.deep_view() + split_lines(s@.skip(sn as int)) =~= prev
                        + split_lines(tail));
                }
                pos = sn;
            },
        }
    }
    proof {
        assert(s@.skip(pos as int) =~= Seq::<char>::empty());
        assert(out.deep_view() + split_lines(s@.skip(pos as int)) =~= out.deep_view());
    }
    out
}

/// The lines of `s` with their line breaks kept: splitting after each
/// `'\n'`. The document is exactly the concatenation of its raw lines.
pub open spec fn raw_lines(s: Seq<char>) -> Seq<Seq<char>>
    decreases s.len(),
{
    if s.len() == 0 {
        Seq::empty()
    } else {
        match find_at(s, seq!['\n'], 0) {
            None => seq![s],
            Some(j) => if 0 <= j && j + 1 <= s.len() {
                seq![s.subrange(0, j + 1)] + raw_lines(s.skip(j + 1))
            } else {
                seq![s]
            },
        }
    }
}

/// The concatenation of the given pieces, in order.
pub open spec fn concat_lines(ls: Seq<Seq<char>>) -> Seq<char>
    decreases ls.len(),
{
    if ls.len() == 0 {
        Seq::empty()
    } else {
        ls[0] + concat_lines(ls.drop_first())
    }
}

/// Concatenating the raw lines gives the document back.
pub proof fn lemma_concat_raw_lines(s: Seq<char>)
    ensures
        concat_lines(raw_lines(s)) == s,
    decreases s.len(),
{
    if s.len() > 0 {
        match find_at(s, seq!['\n'], 0) {
            None => {
                assert(seq![s].drop_first() =~= Seq::<Seq<char>>::empty());
                assert(seq![s][0] == s);
                assert(concat_lines(Seq::<Seq<char>>::empty()) == Seq::<char>::empty());
                assert(concat_lines(seq![s]) =~= s);
            },
            Some(j) => {
                lemma_find_at_bounds(s, seq!['\n'], 0);
                lemma_concat_raw_lines(s.skip(j + 1));
                let parts = seq![s.subrange(0, j + 1)] + raw_lines(s.skip(j + 1));
                assert(parts[0] == s.subrange(0, j + 1));
                assert(parts.drop_first() =~= raw_lines(s.skip(j + 1)));
                assert(s.subrange(0, j + 1) + s.skip(j + 1) =~= s);
            },
        }
    }
}

/// Concatenation distributes over appending line sequences.
pub proof fn lemma_concat_lines_app(a: Seq<Seq<char>>, b: Seq<Seq<char>>)
    ensures
        concat_lines(a + b) == concat_lines(a) + concat_lines(b),
    decreases a.len(),
{
    if a.len() == 0 {
        assert(a + b =~= b);
        assert(concat_lines(a) + concat_lines(b) =~= concat_lines(b));
    } else {
        lemma_concat_lines_app(a.drop_first(), b);
        assert((a + b)[0] == a[0]);
        assert((a + b).drop_first() =~= a.drop_first() + b);
        assert(a[0] + (concat_lines(a.drop_first()) + concat_lines(b)) =~= concat_lines(a)
            + concat_lines(b));
    }
}

proof fn lemma_concat_lines_push(ls: Seq<Seq<char>>, x: Seq<char>)
    ensures
        concat_lines(ls.push(x)) == concat_lines(ls) + x,
    decreases ls.len(),
{
    if ls.len() == 0 {
        assert(ls.push(x) =~= seq![x]);
        assert(seq![x].drop_first() =~= Seq::<Seq<char>>::empty());
        assert(seq![x][0] == x);
        assert(concat_lines(Seq::<Seq<char>>::empty()) == Seq::<char>::empty());
        assert(concat_lines(seq![x]) =~= x);
        assert(concat_lines(ls) + x =~= x);
    } else {
        lemma_concat_lines_push(ls.drop_first(), x);
        assert(ls.push(x).drop_first() =~= ls.drop_first().push(x));
        assert(ls.push(x)[0] == ls[0]);
        assert(concat_lines(ls.push(x)) =~= concat_lines(ls) + x);
    }
}

/// Splits `s` into its raw lines, line breaks kept.
pub fn split_into_raw_lines(s: &str) -> (out: Vec<String>)
    ensures
        out.deep_view() == raw_lines(s@),
{
    let sn = s.unicode_len();
    let mut out: Vec<String> = Vec::new();
    let mut pos: usize = 0;
    proof {
        reveal_strlit("\n");
        assert("\n"@ =~= seq!['\n']);
        assert(s@.skip(0) =~= s@);
        assert(out.deep_view() =~= Seq::<Seq<char>>::empty());
        assert(out.deep_view() + raw_lines(s@) =~= raw_lines(s@));
    }
    while pos < sn
        invariant
            pos <= sn,
            sn == s@.len(),
            out.deep_view() + raw_lines(s@.skip(pos as int)) == raw_lines(s@),
        decreases sn - pos,
    {
        let ghost prev = out.deep_view();
        let ghost tail = s@.skip(pos as int);
        match find_from(s, "\n", pos) {
            Some(i) => {
                proof {
                    reveal_strlit("\n");
                    assert("\n"@ =~= seq!['\n']);
                    lemma_find_at_bounds(s@, seq!['\n'], pos as int);
                    lemma_find_at_shift(s@, seq!['\n'], pos as int, pos as int);
                }
                let line = s.substring_char(pos, i + 1).to_owned();
                out.push(line);
                proof {
                    assert(tail.subrange(0, i - pos + 1) =~= s@.subrange(pos as int, i + 1));
                    assert(tail.skip(i - pos + 1) =~= s@.skip(i + 1));
                    assert(out.deep_view() =~= prev.push(s@.subrange(pos as int, i + 1)));
                    assert(raw_lines(tail) == seq![s@.subrange(pos as int, i + 1)] + raw_lines(
                        s@.skip(i + 1),
                    ));
                    assert(out.deep_view() + raw_lines(s@.skip(i + 1)) =~= prev + raw_lines(
                        tail,
                    ));
                }
                pos = i + 1;
            },
            None => {
                proof {
                    reveal_strlit("\n");
                    assert("\n"@ =~= seq!['\n']);
                    lemma_find_at_shift(s@, seq!['\n'], pos as int, pos as int);
                }
                let line = s.substring_char(pos, sn).to_owned();
                out.push(line);
                proof {
                    assert(tail =~= s@.subrange(pos as int, sn as int));
                    assert(raw_lines(tail) == seq![tail]);
                    assert(out.deep_view() =~= prev.push(tail));
                    assert(s@.skip(sn as int) =~= Seq::<char>::empty());
                    assert(out.deep_view() + raw_lines(s@.skip(sn as int)) =~= prev + raw_lines(
                        tail,
                    ));
                }
                pos = sn;
            },
        }
    }
    proof {
        assert(s@.skip(pos as int) =~= Seq::<char>::empty());
        assert(out.deep_view() + raw_lines(s@.skip(pos as int)) =~= out.deep_view());
    }
    out
}

/// Concatenates the given strings, in order.
pub fn concat_strings(items: &Vec<String>) -> (r: String)
    ensures
        r@ == concat_lines(items.deep_view()),
{
    let mut out = String::new();
    let mut k: usize = 0;
    proof {
        assert(items.deep_view().take(0) =~= Seq::<Seq<char>>::empty());
    }
    while k < items.len()
        invariant
            k <= items.len(),
            out@ == concat_lines(items.deep_view().take(k as int)),
        decreases items.len() - k,
    {
        out.append(items[k].as_str());
        proof {
            assert(items.deep_view()[k as int] == items@[k as int]@);
            lemma_concat_lines_push(
                items.deep_view().take(k as int),
                items.deep_view()[k as int],
            );
            assert(items.deep_view().take(k + 1) =~= items.deep_view().take(k as int).push(
                items.deep_view()[k as int],
            ));
        }
        k = k + 1;
    }
    proof {
        assert(items.deep_view().take(items.len() as int) =~= items.deep_view());
    }
    out
}

/// The elements of `ls` concatenated with `sep` between neighbours.
pub open spec fn join_sep(ls: Seq<Seq<char>>, sep: Seq<char>) -> Seq<char>
    decreases ls.len(),
{
    if ls.len() == 0 {
        Seq::empty()
    } else if ls.len() == 1 {
        ls[0]
    } else {
        ls[0] + sep + join_sep(ls.drop_first(), sep)
    }
}

proof fn lemma_join_sep_push(ls: Seq<Seq<char>>, x: Seq<char>, sep: Seq<char>)
    ensures
        join_sep(ls.push(x), sep) == if ls.len() == 0 {
            x
        } else {
            join_sep(ls, sep) + sep + x
        },
    decreases ls.len(),
{
    if ls.len() == 0 {
        assert(ls.push(x) =~= seq![x]);
        assert(join_sep(seq![x], sep) == x);
    } else if ls.len() == 1 {
        assert(ls.push(x).drop_first() =~= seq![x]);
        assert(ls.push(x)[0] == ls[0]);
        assert(join_sep(seq![x], sep) == x);
        assert(join_sep(ls.push(x), sep) == ls[0] + sep + x);
    } else {
        lemma_join_sep_push(ls.drop_first(), x, sep);
        assert(ls.push(x).drop_first() =~= ls.drop_first().push(x));
        assert(join_sep(ls, sep) + sep + x =~= ls[0] + sep + (join_sep(ls.drop_first(), sep)
            + sep + x));
    }
}

/// Joins the given strings with `sep` between neighbours.
pub fn join_with(items: &Vec<String>, sep: &str) -> (r: String)
    ensures
        r@ == join_sep(items.deep_view(), sep@),
{
    let mut out = String::new();
    let mut k: usize = 0;
    while k < items.len()
        invariant
            k <= items.len(),
            k == 0 ==> out@ == Seq::<char>::empty(),
            k > 0 ==> out@ == join_sep(items.deep_view().take(k as int), sep@),
        decreases items.len() - k,
    {
        let ghost prev = out@;
        if k > 0 {
            out.append(sep);
        }
        out.append(items[k].as_str());
        proof {
            assert(items.deep_view()[k as int] == items@[k as int]@);
            lemma_join_sep_push(items.deep_view().take(k as int), items.deep_view()[k as int],
                sep@);
            assert(items.deep_view().take(k + 1) =~= items.deep_view().take(k as int).push(
                items.deep_view()[k as int],
            ));
        }
        k = k + 1;
    }
    proof {
        assert(items.deep_view().take(items.len() as int) =~= items.deep_view());
    }
    out
}

} // verus!
