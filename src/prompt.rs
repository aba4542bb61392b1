//! The texts the pipeline hands to the embedding model and to the chat
//! model: passage and query inputs, the retrieved context and the question.
use vstd::prelude::*;
use crate::splitter::views;

verus! {

/// Put before each chunk embedded at ingestion time.
pub const PASSAGE_PREFIX: &'static str = "passage: ";

/// Put before each question embedded at query time.
pub const QUERY_PREFIX: &'static str = "query: ";

/// Marks where each retrieved chunk begins and ends in the context.
pub const SEPARATOR: &'static str = "~~~";

pub const SYSTEM_PROMPT: &'static str = "Use the provided CONTEXT to answer questions. Documents in the CONTEXT are delimited with triple ~, i.e. `~~~`. If the answer cannot be found in the CONTEXT, write 'I could not find an answer.'";

pub const QUESTION_LABEL: &'static str = "QUESTION: ";

pub const CONTEXT_LABEL: &'static str = "\n\nCONTEXT: ";

/// Ends the name of the file that holds a document's exported embeddings.
pub const EXPORT_SUFFIX: &'static str = "_embeddings.json";

/// The text embedded for a chunk at ingestion time.
pub fn passage_input(chunk: &str) -> (r: String)
    ensures
        r@ == PASSAGE_PREFIX@ + chunk@,
{
    let mut r = String::from_str(PASSAGE_PREFIX);
    r.append(chunk);
    r
}

/// The text embedded for a question at query time.
pub fn query_input(question: &str) -> (r: String)
    ensures
        r@ == QUERY_PREFIX@ + question@,
{
    let mut r = String::from_str(QUERY_PREFIX);
    r.append(question);
    r
}

/// The texts embedded for a document's chunks, in chunk order.
pub fn passage_inputs(chunks: &Vec<String>) -> (r: Vec<String>)
    ensures
        r@.len() == chunks@.len(),
        forall|i: int| 0 <= i < chunks@.len() ==> #[trigger] r@[i]@ == PASSAGE_PREFIX@ + chunks@[i]@,
{
    let mut r: Vec<String> = Vec::new();
    let mut i: usize = 0;
    while i < chunks.len()
        invariant
            i <= chunks.len(),
            r@.len() == i,
            forall|j: int| 0 <= j < i ==> #[trigger] r@[j]@ == PASSAGE_PREFIX@ + chunks@[j]@,
        decreases chunks.len() - i,
    {
        r.push(passage_input(chunks[i].as_str()));
        i = i + 1;
    }
    r
}

/// The chunks of `cs` joined with `sep` between each two.
pub open spec fn joined(cs: Seq<Seq<char>>, sep: Seq<char>) -> Seq<char>
    decreases cs.len(),
{
    if cs.len() == 0 {
        Seq::empty()
    } else if cs.len() == 1 {
        cs[0]
    } else {
        joined(cs.drop_last(), sep) + sep + cs.last()
    }
}

/// The context built from the first `n` chunks of `cs` (all, if fewer): each
/// chunk between separators, in rank order.
pub open spec fn context_spec(cs: Seq<Seq<char>>, n: usize) -> Seq<char> {
    let m = if n < cs.len() { n as int } else { cs.len() as int };
    SEPARATOR@ + joined(cs.take(m), SEPARATOR@) + SEPARATOR@
}

/// Assembles the context from the first `n` of the ranked `chunks`.
pub fn build_context(chunks: &Vec<String>, n: usize) -> (r: String)
    ensures
        r@ == context_spec(views(chunks@), n),
{
    let ghost cs = views(chunks@);
    let m: usize = if n < chunks.len() { n } else { chunks.len() };
    let mut r = String::from_str(SEPARATOR);
    let mut i: usize = 0;
    assert(cs.take(0) =~= Seq::<Seq<char>>::empty());
    while i < m
        invariant
            cs == views(chunks@),
            m <= chunks.len(),
            i <= m,
            r@ == SEPARATOR@ + joined(cs.take(i as int), SEPARATOR@),
        decreases m - i,
    {
        if i > 0 {
            r.append(SEPARATOR);
        }
        r.append(chunks[i].as_str());
        proof {
            let t = cs.take(i + 1);
            assert(t.drop_last() =~= cs.take(i as int));
            assert(t.last() == chunks@[i as int]@);
            if i == 0 {
                assert(joined(cs.take(0), SEPARATOR@) =~= Seq::<char>::empty());
                assert(r@ =~= SEPARATOR@ + joined(t, SEPARATOR@));
            } else {
                assert(r@ =~= SEPARATOR@ + joined(t, SEPARATOR@));
            }
        }
        i = i + 1;
    }
    r.append(SEPARATOR);
    r
}

/// The user message for `question` with its retrieved `context`.
pub fn user_prompt(question: &str, context: &str) -> (r: String)
    ensures
        r@ == QUESTION_LABEL@ + question@ + CONTEXT_LABEL@ + context@,
{
    let mut r = String::from_str(QUESTION_LABEL);
    r.append(question);
    r.append(CONTEXT_LABEL);
    r.append(context);
    r
}

/// The name of the file that holds the embeddings exported for the document
/// whose file stem is `stem`.
pub fn export_file_name(stem: &str) -> (r: String)
    ensures
        r@ == stem@ + EXPORT_SUFFIX@,
{
    let mut r = String::from_str(stem);
    r.append(EXPORT_SUFFIX);
    r
}

} // verus!
