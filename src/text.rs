//! Characters, whitespace and trimming, as `str::trim` understands them.
use vstd::prelude::*;

verus! {

/// Unicode `White_Space`, the set that `str::trim` removes.
pub open spec fn is_ws(c: char) -> bool {
    let u = c as u32;
    ||| 0x09 <= u <= 0x0D
    ||| u == 0x20
    ||| u == 0x85
    ||| u == 0xA0
    ||| u == 0x1680
    ||| 0x2000 <= u <= 0x200A
    ||| u == 0x2028
    ||| u == 0x2029
    ||| u == 0x202F
    ||| u == 0x205F
    ||| u == 0x3000
}

/// Number of whitespace characters at the start of `s`.
pub open spec fn lead_ws(s: Seq<char>) -> nat
    decreases s.len(),
{
    if s.len() > 0 && is_ws(s[0]) {
        1 + lead_ws(s.drop_first())
    } else {
        0
    }
}

/// Number of whitespace characters at the end of `s`.
pub open spec fn trail_ws(s: Seq<char>) -> nat
    decreases s.len(),
{
    if s.len() > 0 && is_ws(s.last()) {
        1 + trail_ws(s.drop_last())
    } else {
        0
    }
}

/// `s` without leading and trailing whitespace.
pub open spec fn trim_spec(s: Seq<char>) -> Seq<char> {
    let r = s.skip(lead_ws(s) as int);
    r.take(r.len() - trail_ws(r))
}

pub fn is_whitespace(c: char) -> (r: bool)
    ensures
        r == is_ws(c),
{
    let u: u32 = c as u32;
    (0x09 <= u && u <= 0x0D) || u == 0x20 || u == 0x85 || u == 0xA0 || u == 0x1680 || (0x2000
        <= u && u <= 0x200A) || u == 0x2028 || u == 0x2029 || u == 0x202F || u == 0x205F || u
        == 0x3000
}

pub fn char_vec(s: &str) -> (r: Vec<char>)
    ensures
        r@ == s@,
{
    let mut r: Vec<char> = Vec::new();
    for c in it: s.chars()
        invariant
            r@ == it.seq().take(it.index() as int),
            it.seq() == s@,
    {
        r.push(c);
    }
    r
}

proof fn lemma_trail_ws_step(v: Seq<char>, e: int)
    requires
        0 < e <= v.len(),
        is_ws(v[e - 1]),
    ensures
        trail_ws(v.take(e)) == 1 + trail_ws(v.take(e - 1)),
{
    assert(v.take(e).drop_last() =~= v.take(e - 1));
}

pub proof fn lemma_lead_ws_from(v: Seq<char>, q: int)
    requires
        0 <= q < v.len(),
        is_ws(v[q]),
    ensures
        lead_ws(v.skip(q)) == 1 + lead_ws(v.skip(q + 1)),
{
    assert(v.skip(q).drop_first() =~= v.skip(q + 1));
}

/// `s` with leading and trailing whitespace removed.
pub fn trim(s: &str) -> (r: &str)
    ensures
        r@ == trim_spec(s@),
{
    let v = char_vec(s);
    let n: usize = v.len();
    let mut a: usize = 0;
    assert(v@.skip(0) =~= v@);
    while a < n && is_whitespace(v[a])
        invariant
            v@ == s@,
            n == v.len(),
            a <= n,
            lead_ws(v@) == a + lead_ws(v@.skip(a as int)),
        decreases n - a,
    {
        proof {
            lemma_lead_ws_from(v@, a as int);
        }
        a = a + 1;
    }
    let ghost r = v@.skip(a as int);
    let mut e: usize = n;
    assert(r.take((e - a) as int) =~= r);
    while e > a && is_whitespace(v[e - 1])
        invariant
            v@ == s@,
            n == v.len(),
            a <= e <= n,
            r == v@.skip(a as int),
            trail_ws(r) == (n - e) + trail_ws(r.take((e - a) as int)),
        decreases e,
    {
        proof {
            assert(r[(e - a) - 1] == v@[e - 1]);
            lemma_trail_ws_step(r, (e - a) as int);
        }
        e = e - 1;
    }
    proof {
        assert(lead_ws(v@) == a);
        assert(trail_ws(r) == n - e);
        assert(r.take((e - a) as int) =~= v@.subrange(a as int, e as int));
    }
    s.substring_char(a, e)
}

} // verus!
