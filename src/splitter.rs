//! Token-bounded splitting of a document into trimmed, ordered chunks.
//!
//! The chunk boundaries come from `text_splitter`, sized by a `tokenizers`
//! tokenizer. Every chunk sequence handed out by [`Splitter::split`] has been
//! checked here: the chunks tile the document (only whitespace lies between
//! and around them) and each chunk's token count is within the budget.
use vstd::prelude::*;
use text_splitter::TextSplitter;
use tokenizers::Tokenizer;
use crate::text::{char_vec, is_whitespace, is_ws, lead_ws, lemma_lead_ws_from, trim_spec};

verus! {

#[verifier::external_type_specification]
#[verifier::external_body]
pub struct ExTokenizer(Tokenizer);

/// `c` is non-empty and neither starts nor ends with whitespace.
pub open spec fn trimmed(c: Seq<char>) -> bool {
    c.len() > 0 && !is_ws(c[0]) && !is_ws(c.last())
}

/// `cs` tiles `t`: `t` is whitespace, `cs[0]`, whitespace, `cs[1]`, ...,
/// whitespace, each chunk trimmed.
pub open spec fn tiles(t: Seq<char>, cs: Seq<Seq<char>>) -> bool
    decreases cs.len(),
{
    let r = t.skip(lead_ws(t) as int);
    if cs.len() == 0 {
        r.len() == 0
    } else {
        &&& trimmed(cs[0])
        &&& cs[0].is_prefix_of(r)
        &&& tiles(r.skip(cs[0].len() as int), cs.drop_first())
    }
}

/// The characters of a text that are not whitespace, in order.
pub open spec fn content(s: Seq<char>) -> Seq<char> {
    s.filter(|c: char| !is_ws(c))
}

pub open spec fn views(v: Seq<String>) -> Seq<Seq<char>> {
    v.map_values(|s: String| s@)
}

/// Every measured token count is present and within `max_tokens`.
pub open spec fn within_budget(counts: Seq<Option<usize>>, max_tokens: usize) -> bool {
    forall|i: int| 0 <= i < counts.len() ==> (#[trigger] counts[i] matches Some(n) && n <= max_tokens)
}

/// Whether the tokenizer can encode `s` (without special tokens). Unknown
/// tokens are dealt with before any merge is drawn at random, so this does
/// not depend on chance, unlike the tokens themselves.
pub uninterp spec fn encodes(t: Tokenizer, s: Seq<char>) -> bool;

/// The tokenizer encodes every piece of `text`.
pub open spec fn encodes_pieces(t: Tokenizer, text: Seq<char>) -> bool {
    forall|i: int, j: int| 0 <= i <= j <= text.len() ==> #[trigger] encodes(t, text.subrange(i, j))
}

/// Every chunk of a tiling is trimmed.
pub proof fn lemma_tiles_trimmed(t: Seq<char>, cs: Seq<Seq<char>>)
    requires
        tiles(t, cs),
    ensures
        forall|i: int| 0 <= i < cs.len() ==> #[trigger] trimmed(cs[i]),
    decreases cs.len(),
{
    if cs.len() > 0 {
        let r = t.skip(lead_ws(t) as int);
        lemma_tiles_trimmed(r.skip(cs[0].len() as int), cs.drop_first());
        assert forall|i: int| 0 <= i < cs.len() implies #[trigger] trimmed(cs[i]) by {
            if i > 0 {
                assert(cs[i] == cs.drop_first()[i - 1]);
            }
        }
    }
}

/// A trimmed chunk is its own trim.
pub proof fn lemma_trimmed_is_trim(c: Seq<char>)
    requires
        trimmed(c),
    ensures
        trim_spec(c) == c,
{
    assert(c.skip(0) =~= c);
    assert(c.take(c.len() as int) =~= c);
}

/// Why a chunk sequence was refused.
#[derive(Debug, Clone, Copy, PartialEq, Eq, Structural)]
pub enum SplitError {
    /// The chunks do not tile the document.
    NotTiled,
    /// The tokenizer could not encode the chunk at `index`.
    Untokenizable { index: usize },
    /// The chunk at `index` has `tokens` tokens, more than the budget.
    OverBudget { index: usize, tokens: usize },
    /// The tokenizer cannot encode the characters `start..end` of the text.
    Unencodable { start: usize, end: usize },
}

/// The first index whose count is missing or above `max_tokens`.
pub open spec fn first_bad(counts: Seq<Option<usize>>, max_tokens: usize, i: int) -> bool {
    &&& 0 <= i < counts.len()
    &&& !(counts[i] matches Some(n) && n <= max_tokens)
    &&& forall|j: int| 0 <= j < i ==> (#[trigger] counts[j] matches Some(n) && n <= max_tokens)
}

/// What [`check_chunks`] returns for a text, its chunks and their counts.
pub open spec fn check_spec(
    t: Seq<char>,
    cs: Seq<Seq<char>>,
    counts: Seq<Option<usize>>,
    max_tokens: usize,
    r: Result<(), SplitError>,
) -> bool {
    match r {
        Ok(()) => tiles(t, cs) && within_budget(counts, max_tokens),
        Err(SplitError::NotTiled) => !tiles(t, cs),
        Err(SplitError::Untokenizable { index }) => {
            &&& tiles(t, cs)
            &&& first_bad(counts, max_tokens, index as int)
            &&& counts[index as int] is None
        },
        Err(SplitError::OverBudget { index, tokens }) => {
            &&& tiles(t, cs)
            &&& first_bad(counts, max_tokens, index as int)
            &&& counts[index as int] == Some(tokens)
            &&& tokens > max_tokens
        },
        Err(SplitError::Unencodable { .. }) => false,
    }
}

/// Index of the first non-whitespace character at or after `p`.
fn skip_ws(v: &Vec<char>, p: usize) -> (q: usize)
    requires
        p <= v.len(),
    ensures
        q == p + lead_ws(v@.skip(p as int)),
        q <= v.len(),
{
    let mut q: usize = p;
    while q < v.len() && is_whitespace(v[q])
        invariant
            p <= q <= v.len(),
            lead_ws(v@.skip(p as int)) == (q - p) + lead_ws(v@.skip(q as int)),
        decreases v.len() - q,
    {
        proof {
            lemma_lead_ws_from(v@, q as int);
        }
        q = q + 1;
    }
    q
}

/// Whether `c` occurs in `v` starting at `q`.
fn occurs_at(v: &Vec<char>, q: usize, c: &Vec<char>) -> (r: bool)
    requires
        q <= v.len(),
    ensures
        r == c@.is_prefix_of(v@.skip(q as int)),
{
    if c.len() > v.len() - q {
        return false;
    }
    let mut j: usize = 0;
    while j < c.len()
        invariant
            j <= c.len(),
            q + c.len() <= v.len(),
            forall|k: int| 0 <= k < j ==> c@[k] == v@[q + k],
        decreases c.len() - j,
    {
        if c[j] != v[q + j] {
            assert(c@[j as int] != v@.skip(q as int).subrange(0, c@.len() as int)[j as int]);
            return false;
        }
        j = j + 1;
    }
    assert(c@ =~= v@.skip(q as int).subrange(0, c@.len() as int));
    true
}

/// Whether `chunks` tile `text`.
pub fn is_tiling(text: &str, chunks: &Vec<String>) -> (r: bool)
    ensures
        r == tiles(text@, views(chunks@)),
{
    let v = char_vec(text);
    let ghost cs = views(chunks@);
    let mut p: usize = 0;
    let mut i: usize = 0;
    assert(v@.skip(0) =~= v@);
    assert(cs.skip(0) =~= cs);
    while i < chunks.len()
        invariant
            v@ == text@,
            cs == views(chunks@),
            i <= chunks.len(),
            p <= v.len(),
            tiles(text@, cs) == tiles(v@.skip(p as int), cs.skip(i as int)),
        decreases chunks.len() - i,
    {
        let q: usize = skip_ws(&v, p);
        let c = char_vec(chunks[i].as_str());
        let ghost r = v@.skip(p as int).skip(lead_ws(v@.skip(p as int)) as int);
        assert(r =~= v@.skip(q as int));
        assert(cs.skip(i as int)[0] == c@);
        if c.len() == 0 || is_whitespace(c[0]) || is_whitespace(c[c.len() - 1]) || !occurs_at(
            &v,
            q,
            &c,
        ) {
            return false;
        }
        assert(r.skip(c@.len() as int) =~= v@.skip((q + c.len()) as int));
        assert(cs.skip(i as int).drop_first() =~= cs.skip(i + 1));
        p = q + c.len();
        i = i + 1;
    }
    let q: usize = skip_ws(&v, p);
    assert(v@.skip(p as int).skip(lead_ws(v@.skip(p as int)) as int) =~= v@.skip(q as int));
    assert(cs.skip(i as int).len() == 0);
    q == v.len()
}

proof fn lemma_lead_ws_bounds(s: Seq<char>)
    ensures
        lead_ws(s) <= s.len(),
        forall|j: int| 0 <= j < lead_ws(s) ==> is_ws(#[trigger] s[j]),
    decreases s.len(),
{
    if s.len() > 0 && is_ws(s[0]) {
        lemma_lead_ws_bounds(s.drop_first());
        assert forall|j: int| 0 <= j < lead_ws(s) implies is_ws(#[trigger] s[j]) by {
            if j > 0 {
                assert(s[j] == s.drop_first()[j - 1]);
            }
        }
    }
}

proof fn lemma_content_of_ws(s: Seq<char>)
    requires
        forall|j: int| 0 <= j < s.len() ==> is_ws(#[trigger] s[j]),
    ensures
        content(s) == Seq::<char>::empty(),
    decreases s.len(),
{
    reveal(Seq::filter);
    if s.len() > 0 {
        lemma_content_of_ws(s.drop_last());
    }
}

/// Splitting loses and duplicates no content: when `cs` tiles `t`, the
/// non-whitespace characters of `t` are exactly those of the chunks joined
/// end to end, in the same order.
pub proof fn lemma_tiling_keeps_content(t: Seq<char>, cs: Seq<Seq<char>>)
    requires
        tiles(t, cs),
    ensures
        content(t) == content(cs.flatten()),
    decreases cs.len(),
{
    let pred = |c: char| !is_ws(c);
    let l = lead_ws(t) as int;
    lemma_lead_ws_bounds(t);
    let w = t.take(l);
    let r = t.skip(l);
    assert(t =~= w + r);
    Seq::filter_distributes_over_add(w, r, pred);
    lemma_content_of_ws(w);
    if cs.len() == 0 {
        assert(r =~= Seq::<char>::empty());
        assert(content(r) =~= Seq::<char>::empty());
    } else {
        let c = cs[0];
        let rest = r.skip(c.len() as int);
        assert(r =~= c + rest);
        Seq::filter_distributes_over_add(c, rest, pred);
        lemma_tiling_keeps_content(rest, cs.drop_first());
        Seq::filter_distributes_over_add(c, cs.drop_first().flatten(), pred);
    }
}

/// Accepts `chunks` of `text`, with their measured token `counts`, if they
/// tile the text and every count is present and within `max_tokens`; the
/// error names the first failure, tiling first.
pub fn check_chunks(
    text: &str,
    chunks: &Vec<String>,
    counts: &Vec<Option<usize>>,
    max_tokens: usize,
) -> (r: Result<(), SplitError>)
    requires
        counts.len() == chunks.len(),
    ensures
        check_spec(text@, views(chunks@), counts@, max_tokens, r),
{
    if !is_tiling(text, chunks) {
        return Err(SplitError::NotTiled);
    }
    let mut i: usize = 0;
    while i < counts.len()
        invariant
            i <= counts.len(),
            tiles(text@, views(chunks@)),
            forall|j: int| 0 <= j < i ==> (#[trigger] counts@[j] matches Some(n) && n <= max_tokens),
        decreases counts.len() - i,
    {
        match counts[i] {
            None => {
                return Err(SplitError::Untokenizable { index: i });
            },
            Some(n) => {
                if n > max_tokens {
                    return Err(SplitError::OverBudget { index: i, tokens: n });
                }
            },
        }
        i = i + 1;
    }
    Ok(())
}

/// Relies on `text_splitter::TextSplitter::chunks`, sized by the tokenizer,
/// for the chunk boundaries; `trim` is handed to `with_trim_chunks`. The
/// splitter measures pieces of `text` with `Tokenizer::encode` and panics
/// where that fails, so every piece must encode. The boundaries depend on the
/// token counts, which a tokenizer may draw at random, so nothing is assumed
/// of them: `check_chunks` checks what is handed on.
#[verifier::external_body]
fn raw_chunks(tokenizer: &Tokenizer, text: &str, max_tokens: usize, trim: bool) -> (r: Vec<String>)
    requires
        encodes_pieces(*tokenizer, text@),
{
    TextSplitter::new(tokenizer).with_trim_chunks(trim).chunks(text, max_tokens).map(
        |c| c.to_string(),
    ).collect()
}

/// Relies on `tokenizers::Tokenizer::encode` (without special tokens) and
/// `Encoding::len` for the number of tokens of `s`, `None` where encoding
/// fails. The count itself may vary from call to call (a tokenizer may drop
/// merges at random), so only whether there is one is stated.
#[verifier::external_body]
fn count_tokens(tokenizer: &Tokenizer, s: &str) -> (r: Option<usize>)
    ensures
        r is Some <==> encodes(*tokenizer, s@),
{
    match tokenizer.encode(s, false) {
        Ok(encoding) => Some(encoding.len()),
        Err(_) => None,
    }
}

/// The chunks of a text with the token count measured for each.
pub struct SplitChunks {
    pub chunks: Vec<String>,
    pub tokens: Vec<usize>,
}

/// `sc` is a split of `text` within `max_tokens`: its chunks tile `text`,
/// each trimmed, and each chunk's measured token count is within the budget.
pub open spec fn split_ok(text: Seq<char>, max_tokens: usize, sc: SplitChunks) -> bool {
    &&& tiles(text, views(sc.chunks@))
    &&& sc.tokens@.len() == sc.chunks@.len()
    &&& forall|i: int|
        0 <= i < sc.chunks@.len() ==> #[trigger] trim_spec(sc.chunks@[i]@) == sc.chunks@[i]@
            && sc.chunks@[i]@.len() > 0 && sc.tokens@[i] <= max_tokens
}

/// A text splitter bounded by a token budget.
pub struct Splitter {
    pub tokenizer: Tokenizer,
}

impl Splitter {
    pub fn new(tokenizer: Tokenizer) -> (s: Splitter)
        ensures
            s.tokenizer == tokenizer,
    {
        Splitter { tokenizer }
    }

    /// Splits `text` into chunks of at most `max_tokens` tokens each, in
    /// document order, each trimmed, together tiling `text`, with the token
    /// count measured for each; or says which chunk fails that (see
    /// [`check_chunks`]). The tokenizer must encode every piece of `text`
    /// ([`Splitter::split_checked`] tests that first).
    pub fn split(&self, text: &str, max_tokens: usize) -> (r: Result<SplitChunks, SplitError>)
        requires
            encodes_pieces(self.tokenizer, text@),
        ensures
            r matches Ok(sc) ==> split_ok(text@, max_tokens, sc),
            r matches Err(e) ==> !(e is Unencodable),
    {
        let chunks = raw_chunks(&self.tokenizer, text, max_tokens, true);
        let ghost cs = views(chunks@);
        let mut counts: Vec<Option<usize>> = Vec::new();
        let mut i: usize = 0;
        while i < chunks.len()
            invariant
                i <= chunks.len(),
                counts@.len() == i,
            decreases chunks.len() - i,
        {
            counts.push(count_tokens(&self.tokenizer, chunks[i].as_str()));
            i = i + 1;
        }
        match check_chunks(text, &chunks, &counts, max_tokens) {
            Ok(()) => {
                let mut tokens: Vec<usize> = Vec::new();
                let mut j: usize = 0;
                while j < counts.len()
                    invariant
                        j <= counts.len(),
                        within_budget(counts@, max_tokens),
                        tokens@.len() == j,
                        forall|k: int| 0 <= k < j ==> #[trigger] tokens@[k] <= max_tokens,
                    decreases counts.len() - j,
                {
                    assert(counts@[j as int] matches Some(n) && n <= max_tokens);
                    match counts[j] {
                        Some(n) => tokens.push(n),
                        None => tokens.push(0),
                    }
                    j = j + 1;
                }
                proof {
                    lemma_tiles_trimmed(text@, cs);
                    assert forall|i: int| 0 <= i < cs.len() implies #[trigger] trim_spec(
                        chunks@[i]@,
                    ) == chunks@[i]@ && chunks@[i]@.len() > 0 by {
                        assert(trimmed(cs[i]));
                        lemma_trimmed_is_trim(cs[i]);
                    }
                }
                Ok(SplitChunks { chunks, tokens })
            },
            Err(e) => Err(e),
        }
    }

    /// [`Splitter::split`], after testing that the tokenizer encodes every
    /// piece of `text`; where it does not, the first piece it fails on, by
    /// start and then end. The test encodes each of the quadratically many
    /// pieces.
    pub fn split_checked(&self, text: &str, max_tokens: usize) -> (r: Result<SplitChunks, SplitError>)
        ensures
            r matches Err(SplitError::Unencodable { start, end }) ==> start <= end <= text@.len()
                && !encodes(self.tokenizer, text@.subrange(start as int, end as int)),
            r matches Err(e) && !(e is Unencodable) ==> encodes_pieces(self.tokenizer, text@),
            r matches Ok(sc) ==> encodes_pieces(self.tokenizer, text@) && split_ok(
                text@,
                max_tokens,
                sc,
            ),
    {
        let n: usize = text.unicode_len();
        if count_tokens(&self.tokenizer, text.substring_char(0, 0)).is_none() {
            return Err(SplitError::Unencodable { start: 0, end: 0 });
        }
        let ghost empty = text@.subrange(0, 0);
        let mut i: usize = 0;
        while i < n
            invariant
                n == text@.len(),
                i <= n,
                encodes(self.tokenizer, empty),
                empty == text@.subrange(0, 0),
                forall|a: int, b: int|
                    0 <= a < i && a < b <= n ==> #[trigger] encodes(self.tokenizer, text@.subrange(a, b)),
            decreases n - i,
        {
            let mut e: usize = i;
            while e < n
                invariant
                    n == text@.len(),
                    i < n,
                    i <= e <= n,
                    forall|a: int, b: int|
                        0 <= a < i && a < b <= n ==> #[trigger] encodes(self.tokenizer, text@.subrange(a, b)),
                    forall|b: int|
                        i < b <= e ==> #[trigger] encodes(self.tokenizer, text@.subrange(i as int, b)),
                decreases n - e,
            {
                let piece = text.substring_char(i, e + 1);
                if count_tokens(&self.tokenizer, piece).is_none() {
                    return Err(SplitError::Unencodable { start: i, end: e + 1 });
                }
                e = e + 1;
            }
            i = i + 1;
        }
        assert forall|a: int, b: int| 0 <= a <= b <= text@.len() implies #[trigger] encodes(self.tokenizer, text@.subrange(a, b)) by {
            if a == b {
                assert(text@.subrange(a, b) =~= empty);
            }
        }
        self.split(text, max_tokens)
    }
}

} // verus!
