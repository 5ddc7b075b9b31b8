use vstd::prelude::*;
use vstd::string::*;

verus! {

/// The character-sequence views of a sequence of strings.
pub open spec fn views_of(v: Seq<String>) -> Seq<Seq<char>> {
    v.map_values(|s: String| s@)
}

/// Splitting on '/' while dropping empty segments, written with an explicit
/// accumulator `cur` holding the segment under construction.
pub open spec fn split_acc(s: Seq<char>, i: int, cur: Seq<char>) -> Seq<Seq<char>>
    decreases s.len() - i,
{
    if i < 0 || i >= s.len() {
        if cur.len() > 0 {
            seq![cur]
        } else {
            seq![]
        }
    } else if s[i] == '/' {
        (if cur.len() > 0 {
            seq![cur]
        } else {
            seq![]
        }) + split_acc(s, i + 1, seq![])
    } else {
        split_acc(s, i + 1, cur.push(s[i]))
    }
}

/// The non-empty '/'-separated segments of a path.
pub open spec fn split_slash(s: Seq<char>) -> Seq<Seq<char>> {
    split_acc(s, 0, seq![])
}

/// Split a path on '/', dropping empty segments, so that `"/a//b/"`
/// yields `["a", "b"]`.
pub fn split_path(s: &str) -> (r: Vec<String>)
    ensures
        views_of(r@) == split_slash(s@),
{
    let n: usize = s.unicode_len();
    let mut out: Vec<String> = Vec::new();
    let mut i: usize = 0;
    let mut seg_start: usize = 0;
    proof {
        assert(s@.subrange(0, 0) =~= Seq::<char>::empty());
    }
    while i < n
        invariant
            seg_start <= i <= n,
            n == s@.len(),
            forall|j: int| seg_start <= j < i ==> s@[j] != '/',
            split_slash(s@) == views_of(out@) + split_acc(
                s@,
                i as int,
                s@.subrange(seg_start as int, i as int),
            ),
        decreases n - i,
    {
        let ghost cur = s@.subrange(seg_start as int, i as int);
        let c = s.get_char(i);
        if c == '/' {
            if i > seg_start {
                let seg = s.substring_char(seg_start, i).to_owned();
                proof {
                    assert(views_of(out@.push(seg)) =~= views_of(out@) + seq![cur]);
                    assert(views_of(out@) + (seq![cur] + split_acc(s@, i + 1, Seq::empty()))
                        =~= (views_of(out@) + seq![cur]) + split_acc(s@, i + 1, Seq::empty()));
                }
                out.push(seg);
            }
            i = i + 1;
            seg_start = i;
            proof {
                assert(s@.subrange(seg_start as int, i as int) =~= Seq::<char>::empty());
            }
        } else {
            i = i + 1;
            proof {
                assert(s@.subrange(seg_start as int, i as int) =~= cur.push(s@[i - 1]));
            }
        }
    }
    if i > seg_start {
        let seg = s.substring_char(seg_start, i).to_owned();
        proof {
            let ghost cur = s@.subrange(seg_start as int, i as int);
            assert(views_of(out@.push(seg)) =~= views_of(out@) + seq![cur]);
        }
        out.push(seg);
    } else {
        proof {
            assert(views_of(out@) + Seq::<Seq<char>>::empty() =~= views_of(out@));
        }
    }
    out
}

/// Character-by-character string equality.
pub fn str_eq(a: &str, b: &str) -> (r: bool)
    ensures
        r == (a@ == b@),
{
    let na: usize = a.unicode_len();
    let nb: usize = b.unicode_len();
    if na != nb {
        proof {
            if a@ == b@ {
                assert(a@.len() == b@.len());
            }
        }
        return false;
    }
    let mut i: usize = 0;
    while i < na
        invariant
            i <= na,
            na == a@.len(),
            na == b@.len(),
            forall|j: int| 0 <= j < i ==> a@[j] == b@[j],
        decreases na - i,
    {
        if a.get_char(i) != b.get_char(i) {
            proof {
                if a@ == b@ {
                    assert(a@[i as int] == b@[i as int]);
                }
            }
            return false;
        }
        i = i + 1;
    }
    proof {
        assert(a@ =~= b@);
    }
    true
}

/// Whether the character `c` occurs in `s`.
pub fn char_in(s: &str, c: char) -> (r: bool)
    ensures
        r == s@.contains(c),
{
    let n: usize = s.unicode_len();
    let mut i: usize = 0;
    while i < n
        invariant
            i <= n,
            n == s@.len(),
            forall|j: int| 0 <= j < i ==> s@[j] != c,
        decreases n - i,
    {
        if s.get_char(i) == c {
            proof {
                assert(s@[i as int] == c);
            }
            return true;
        }
        i = i + 1;
    }
    false
}

/// Whether `p` is a prefix of `s`.
pub open spec fn has_prefix_spec(s: Seq<char>, p: Seq<char>) -> bool {
    p.len() <= s.len() && s.subrange(0, p.len() as int) == p
}

/// Prefix test, character by character.
pub fn has_prefix(s: &str, p: &str) -> (r: bool)
    ensures
        r == has_prefix_spec(s@, p@),
{
    let n: usize = s.unicode_len();
    let np: usize = p.unicode_len();
    if np > n {
        return false;
    }
    let mut i: usize = 0;
    while i < np
        invariant
            i <= np,
            np <= n,
            n == s@.len(),
            np == p@.len(),
            forall|j: int| 0 <= j < i ==> s@[j] == p@[j],
        decreases np - i,
    {
        if s.get_char(i) != p.get_char(i) {
            proof {
                if has_prefix_spec(s@, p@) {
                    assert(s@.subrange(0, np as int)[i as int] == p@[i as int]);
                }
            }
            return false;
        }
        i = i + 1;
    }
    proof {
        assert(s@.subrange(0, np as int) =~= p@);
    }
    true
}

/// The index of the last '/' in `s`, or -1 when there is none.
pub open spec fn last_slash(s: Seq<char>) -> int
    decreases s.len(),
{
    if s.len() == 0 {
        -1
    } else if s[s.len() - 1] == '/' {
        s.len() - 1
    } else {
        last_slash(s.take(s.len() - 1))
    }
}

/// Everything before the last '/', or the empty path when there is none.
pub open spec fn parent_part(s: Seq<char>) -> Seq<char> {
    if last_slash(s) < 0 {
        Seq::empty()
    } else {
        s.take(last_slash(s))
    }
}

/// Everything after the last '/', or the whole path when there is none.
pub open spec fn base_part(s: Seq<char>) -> Seq<char> {
    s.skip(last_slash(s) + 1)
}

proof fn lemma_last_slash_scan(s: Seq<char>, k: int)
    requires
        -1 <= k < s.len(),
        k >= 0 ==> s[k] == '/',
        forall|j: int| k < j < s.len() ==> s[j] != '/',
    ensures
        last_slash(s) == k,
    decreases s.len(),
{
    if s.len() == 0 {
    } else if s[s.len() - 1] == '/' {
        assert(k == s.len() - 1);
    } else {
        lemma_last_slash_scan(s.take(s.len() - 1), k);
    }
}

/// Split a path at its last '/': the textual parent and the base name.
pub fn split_at_last_slash(s: &str) -> (r: (String, String))
    ensures
        r.0@ == parent_part(s@),
        r.1@ == base_part(s@),
{
    let n: usize = s.unicode_len();
    let mut i: usize = n;
    while i > 0 && s.get_char(i - 1) != '/'
        invariant
            i <= n,
            n == s@.len(),
            forall|j: int| i <= j < n ==> s@[j] != '/',
        decreases i,
    {
        i = i - 1;
    }
    if i == 0 {
        proof {
            lemma_last_slash_scan(s@, -1);
            assert(s@.skip(0) =~= s@);
        }
        (String::new(), s.to_owned())
    } else {
        let par = s.substring_char(0, i - 1).to_owned();
        let base = s.substring_char(i, n).to_owned();
        proof {
            lemma_last_slash_scan(s@, i - 1);
            assert(s@.subrange(0, i - 1) =~= s@.take(i - 1));
            assert(s@.subrange(i as int, n as int) =~= s@.skip(i as int));
        }
        (par, base)
    }
}

/// Every element of a filtered sequence is an element of the original.
pub proof fn lemma_filter_elems<A>(s: Seq<A>, pred: spec_fn(A) -> bool)
    ensures
        forall|i: int|
            0 <= i < s.filter(pred).len() ==> exists|k: int|
                0 <= k < s.len() && s[k] == #[trigger] s.filter(pred)[i],
    decreases s.len(),
{
    reveal(Seq::filter);
    if s.len() > 0 {
        let head = s.drop_last();
        lemma_filter_elems(head, pred);
        let f = s.filter(pred);
        let fh = head.filter(pred);
        assert forall|i: int| 0 <= i < f.len() implies exists|k: int|
            0 <= k < s.len() && s[k] == #[trigger] f[i] by {
            if pred(s.last()) && i == f.len() - 1 {
                assert(s[s.len() - 1] == f[i]);
            } else {
                assert(f[i] == fh[i]);
                let k = choose|k: int| 0 <= k < head.len() && head[k] == fh[i];
                assert(s[k] == f[i]);
            }
        }
    }
}

/// The character for one decimal digit value.
pub open spec fn digit_char(d: int) -> char {
    if d == 0 {
        '0'
    } else if d == 1 {
        '1'
    } else if d == 2 {
        '2'
    } else if d == 3 {
        '3'
    } else if d == 4 {
        '4'
    } else if d == 5 {
        '5'
    } else if d == 6 {
        '6'
    } else if d == 7 {
        '7'
    } else if d == 8 {
        '8'
    } else {
        '9'
    }
}

/// The decimal digit characters of a non-negative number.
pub open spec fn dec_digits(n: int) -> Seq<char>
    decreases n,
{
    if n < 10 {
        seq![digit_char(n)]
    } else {
        dec_digits(n / 10).push(digit_char(n % 10))
    }
}

/// The decimal rendering of a signed number, with a leading '-' when negative.
pub open spec fn dec_of_i64(n: int) -> Seq<char> {
    if n >= 0 {
        dec_digits(n)
    } else {
        seq!['-'] + dec_digits(-n)
    }
}

fn append_digit(out: &mut String, d: u64)
    requires
        d < 10,
    ensures
        final(out)@ == old(out)@.push(digit_char(d as int)),
{
    match d {
        0 => out.append("0"),
        1 => out.append("1"),
        2 => out.append("2"),
        3 => out.append("3"),
        4 => out.append("4"),
        5 => out.append("5"),
        6 => out.append("6"),
        7 => out.append("7"),
        8 => out.append("8"),
        _ => out.append("9"),
    }
    proof {
        reveal_strlit("0");
        reveal_strlit("1");
        reveal_strlit("2");
        reveal_strlit("3");
        reveal_strlit("4");
        reveal_strlit("5");
        reveal_strlit("6");
        reveal_strlit("7");
        reveal_strlit("8");
        reveal_strlit("9");
        assert(final(out)@ =~= old(out)@.push(digit_char(d as int)));
    }
}

fn append_u64(out: &mut String, n: u64)
    ensures
        final(out)@ == old(out)@ + dec_digits(n as int),
    decreases n,
{
    if n < 10 {
        append_digit(out, n);
        proof {
            assert(old(out)@.push(digit_char(n as int)) =~= old(out)@ + dec_digits(n as int));
        }
    } else {
        append_u64(out, n / 10);
        append_digit(out, n % 10);
        proof {
            assert((old(out)@ + dec_digits(n as int / 10)).push(digit_char(n as int % 10)) =~= old(
                out,
            )@ + dec_digits(n as int));
        }
    }
}

/// Render an unsigned number in decimal.
pub fn u64_to_string(n: u64) -> (r: String)
    ensures
        r@ == dec_digits(n as int),
{
    let mut out = String::new();
    append_u64(&mut out, n);
    proof {
        assert(Seq::<char>::empty() + dec_digits(n as int) =~= dec_digits(n as int));
    }
    out
}

/// Render a signed number in decimal.
pub fn i64_to_string(n: i64) -> (r: String)
    ensures
        r@ == dec_of_i64(n as int),
{
    if n >= 0 {
        u64_to_string(n as u64)
    } else {
        let m: u64 = ((-(n + 1)) as u64) + 1;
        let mut out = String::new();
        out.append("-");
        append_u64(&mut out, m);
        proof {
            reveal_strlit("-");
            assert(m as int == -(n as int));
            assert(out@ =~= seq!['-'] + dec_digits(-(n as int)));
        }
        out
    }
}

/// Concatenate two strings.
pub fn concat_str(a: &str, b: &str) -> (r: String)
    ensures
        r@ == a@ + b@,
{
    let mut r = String::from_str(a);
    r.append(b);
    r
}

/// Join two path pieces with a single '/'.
pub fn join_slash(a: &str, b: &str) -> (r: String)
    ensures
        r@ == a@ + seq!['/'] + b@,
{
    let mut r = String::from_str(a);
    r.append("/");
    r.append(b);
    proof {
        reveal_strlit("/");
        assert(a@ + "/"@ + b@ =~= a@ + seq!['/'] + b@);
    }
    r
}


proof fn lemma_split_acc_no_slash(s: Seq<char>, i: int, cur: Seq<char>)
    requires
        0 <= i <= s.len(),
        forall|j: int| i <= j < s.len() ==> s[j] != '/',
    ensures
        split_acc(s, i, cur) == (if cur.len() + s.len() - i > 0 {
            seq![cur + s.skip(i)]
        } else {
            Seq::<Seq<char>>::empty()
        }),
    decreases s.len() - i,
{
    if i >= s.len() {
        assert(cur + s.skip(i) =~= cur);
    } else {
        lemma_split_acc_no_slash(s, i + 1, cur.push(s[i]));
        assert(cur.push(s[i]) + s.skip(i + 1) =~= cur + s.skip(i));
    }
}

proof fn lemma_split_concat_seg_acc(x: Seq<char>, y: Seq<char>, i: int, cur: Seq<char>)
    requires
        0 <= i <= x.len(),
        y.len() > 0,
        !y.contains('/'),
    ensures
        split_acc(x + seq!['/'] + y, i, cur) == split_acc(x, i, cur) + seq![y],
    decreases x.len() - i,
{
    let s = x + seq!['/'] + y;
    if i == x.len() {
        assert(s[i] == '/');
        assert forall|j: int| i + 1 <= j < s.len() implies s[j] != '/' by {
            assert(s[j] == y[j - i - 1]);
            if s[j] == '/' {
                assert(y.contains('/'));
            }
        }
        lemma_split_acc_no_slash(s, i + 1, Seq::empty());
        assert(Seq::<char>::empty() + s.skip(i + 1) =~= y);
        assert(split_acc(s, i + 1, Seq::empty()) == seq![y]);
        if cur.len() > 0 {
            assert(split_acc(s, i, cur) =~= seq![cur] + seq![y]);
            assert(split_acc(x, i, cur) + seq![y] =~= seq![cur] + seq![y]);
        } else {
            assert(split_acc(x, i, cur) + seq![y] =~= seq![y]);
        }
    } else {
        assert(s[i] == x[i]);
        if x[i] == '/' {
            lemma_split_concat_seg_acc(x, y, i + 1, Seq::empty());
            if cur.len() > 0 {
                assert((seq![cur] + (split_acc(x, i + 1, Seq::empty()) + seq![y])) =~= (seq![cur]
                    + split_acc(x, i + 1, Seq::empty())) + seq![y]);
            }
        } else {
            lemma_split_concat_seg_acc(x, y, i + 1, cur.push(x[i]));
        }
    }
}

/// Splitting distributes over a '/' that separates a path from a final
/// slash-free segment.
pub proof fn lemma_split_concat_seg(x: Seq<char>, y: Seq<char>)
    requires
        y.len() > 0,
        !y.contains('/'),
    ensures
        split_slash(x + seq!['/'] + y) == split_slash(x).push(y),
{
    lemma_split_concat_seg_acc(x, y, 0, Seq::empty());
    assert(split_slash(x) + seq![y] =~= split_slash(x).push(y));
}

/// Where the last '/' of a sequence sits: at the reported index, with no
/// '/' after it.
pub proof fn lemma_last_slash_separates(s: Seq<char>)
    ensures
        -1 <= last_slash(s) < s.len(),
        last_slash(s) >= 0 ==> s[last_slash(s)] == '/',
        forall|j: int| last_slash(s) < j < s.len() ==> s[j] != '/',
    decreases s.len(),
{
    if s.len() == 0 {
    } else if s[s.len() - 1] == '/' {
    } else {
        lemma_last_slash_separates(s.take(s.len() - 1));
        assert forall|j: int| last_slash(s) < j < s.len() implies s[j] != '/' by {
            if j < s.len() - 1 {
                assert(s.take(s.len() - 1)[j] == s[j]);
            }
        }
    }
}

/// A path with a non-empty base name splits into the segments of its
/// textual parent followed by that base, which itself holds no '/'.
pub proof fn lemma_split_parent_base(s: Seq<char>)
    requires
        base_part(s).len() > 0,
    ensures
        split_slash(s) == split_slash(parent_part(s)).push(base_part(s)),
        !base_part(s).contains('/'),
{
    lemma_last_slash_separates(s);
    let ls = last_slash(s);
    let base = base_part(s);
    assert(!base.contains('/')) by {
        if base.contains('/') {
            let j = choose|j: int| 0 <= j < base.len() && base[j] == '/';
            assert(s[ls + 1 + j] == '/');
        }
    }
    if ls < 0 {
        assert(base =~= s);
        assert(forall|j: int| 0 <= j < s.len() ==> s[j] != '/');
        lemma_split_acc_no_slash(s, 0, Seq::empty());
        assert(Seq::<char>::empty() + s.skip(0) =~= s);
        assert(split_slash(parent_part(s)) == Seq::<Seq<char>>::empty());
        assert(split_slash(parent_part(s)).push(base) =~= seq![s]);
    } else {
        let par = parent_part(s);
        assert(par + seq!['/'] + base =~= s);
        lemma_split_concat_seg(par, base);
    }
}

} // verus!
