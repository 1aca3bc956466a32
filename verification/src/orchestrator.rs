//! The request orchestrator: validation of inbound calls, the streaming
//! shape of responses, and the one law the table owes concurrent loaders.

use crate::engine::contains_id;
use crate::errors::ApiError;
use crate::errors::ApiErrorKind;
use crate::messages::ChatRequest;
use crate::messages::GenerationRequest;
use crate::messages::GenerationResponse;
use vstd::prelude::*;
use vstd::string::StrSliceExecFns;
use vstd::string::StringExecFns;

verus! {

/// Check a generate request: the model identifier must be present and
/// non-empty.
pub fn validate_generation_request(request: &GenerationRequest) -> (r: Result<(), ApiError>)
    ensures
        r is Ok <==> request.model@.len() > 0,
        r matches Err(e) ==> e.kind == ApiErrorKind::BadRequest && e.message@
            == "model identifier required"@,
{
    if request.model.as_str().unicode_len() == 0 {
        Err(
            ApiError {
                kind: ApiErrorKind::BadRequest,
                message: String::from_str("model identifier required"),
            },
        )
    } else {
        Ok(())
    }
}

/// Check a chat request: the model identifier must be non-empty and at
/// least one message must be present.
pub fn validate_chat_request(request: &ChatRequest) -> (r: Result<(), ApiError>)
    ensures
        r is Ok <==> request.model@.len() > 0 && request.messages@.len() > 0,
        r matches Err(e) ==> e.kind == ApiErrorKind::BadRequest,
        r matches Err(e) ==> e.message@ == (if request.model@.len() == 0 {
            "model identifier required"@
        } else {
            "at least one message required"@
        }),
{
    if request.model.as_str().unicode_len() == 0 {
        Err(
            ApiError {
                kind: ApiErrorKind::BadRequest,
                message: String::from_str("model identifier required"),
            },
        )
    } else if request.messages.len() == 0 {
        Err(
            ApiError {
                kind: ApiErrorKind::BadRequest,
                message: String::from_str("at least one message required"),
            },
        )
    } else {
        Ok(())
    }
}

/// The texts of the pieces, concatenated in order.
pub open spec fn pieces_concat(ps: Seq<String>) -> Seq<char>
    decreases ps.len(),
{
    if ps.len() == 0 {
        Seq::empty()
    } else {
        ps[0]@ + pieces_concat(ps.drop_first())
    }
}

proof fn lemma_pieces_concat_push(ps: Seq<String>, p: String)
    ensures
        pieces_concat(ps.push(p)) == pieces_concat(ps) + p@,
    decreases ps.len(),
{
    if ps.len() == 0 {
        assert(ps.push(p)[0] == p);
        assert(ps.push(p).drop_first() =~= Seq::<String>::empty());
        assert(pieces_concat(ps.push(p)) == p@ + pieces_concat(Seq::<String>::empty()));
        assert(p@ + Seq::<char>::empty() =~= pieces_concat(ps) + p@);
    } else {
        lemma_pieces_concat_push(ps.drop_first(), p);
        assert(ps.push(p)[0] == ps[0]);
        assert(ps.push(p).drop_first() =~= ps.drop_first().push(p));
        assert(pieces_concat(ps.push(p)) =~= pieces_concat(ps) + p@);
    }
}

/// Cut a text into pieces of at most `chunk_size` characters whose
/// concatenation is the whole text.
pub fn split_chunks(text: &str, chunk_size: usize) -> (r: Vec<String>)
    requires
        chunk_size > 0,
    ensures
        pieces_concat(r@) == text@,
        forall|i: int| 0 <= i < r@.len() ==> 0 < #[trigger] r@[i]@.len() <= chunk_size,
{
    let n = text.unicode_len();
    let mut out: Vec<String> = Vec::new();
    let mut i: usize = 0;
    while i < n
        invariant
            i <= n,
            n == text@.len(),
            chunk_size > 0,
            pieces_concat(out@) == text@.take(i as int),
            forall|k: int| 0 <= k < out@.len() ==> 0 < #[trigger] out@[k]@.len() <= chunk_size,
        decreases n - i,
    {
        let end = if n - i < chunk_size {
            n
        } else {
            i + chunk_size
        };
        let piece = text.substring_char(i, end).to_owned();
        proof {
            lemma_pieces_concat_push(out@, piece);
            assert(text@.take(i as int) + text@.subrange(i as int, end as int) =~= text@.take(
                end as int,
            ));
        }
        out.push(piece);
        i = end;
    }
    proof {
        assert(text@.take(n as int) =~= text@);
    }
    out
}

/// The concatenated text of a record sequence.
pub open spec fn stream_text(rs: Seq<GenerationResponse>) -> Seq<char>
    decreases rs.len(),
{
    if rs.len() == 0 {
        Seq::empty()
    } else {
        rs[0].response@ + stream_text(rs.drop_first())
    }
}

proof fn lemma_stream_text_push(rs: Seq<GenerationResponse>, r: GenerationResponse)
    ensures
        stream_text(rs.push(r)) == stream_text(rs) + r.response@,
    decreases rs.len(),
{
    if rs.len() == 0 {
        assert(rs.push(r)[0] == r);
        assert(rs.push(r).drop_first() =~= Seq::<GenerationResponse>::empty());
        assert(stream_text(rs.push(r)) == r.response@ + stream_text(
            Seq::<GenerationResponse>::empty(),
        ));
        assert(r.response@ + Seq::<char>::empty() =~= stream_text(rs) + r.response@);
    } else {
        lemma_stream_text_push(rs.drop_first(), r);
        assert(rs.push(r)[0] == rs[0]);
        assert(rs.push(r).drop_first() =~= rs.drop_first().push(r));
        assert(stream_text(rs.push(r)) =~= stream_text(rs) + r.response@);
    }
}

/// Turn a finished generate response into its streaming form: one partial
/// record per chunk of the text, each carrying `done` false, then a final
/// record with empty text, the original completion flag and the usage
/// counters. The concatenated text of the records is the original text.
pub fn stream_generation_records(response: GenerationResponse, chunk_size: usize) -> (r: Vec<
    GenerationResponse,
>)
    requires
        chunk_size > 0,
    ensures
        r@.len() >= 1,
        stream_text(r@) == response.response@,
        forall|i: int| 0 <= i < r@.len() - 1 ==> !(#[trigger] r@[i]).done,
        r@.last().response@.len() == 0,
        r@.last().done == response.done,
        r@.last().eval_count == response.eval_count,
        r@.last().prompt_eval_count == response.prompt_eval_count,
        r@.last().total_duration == response.total_duration,
        r@.last().model == response.model,
{
    let pieces = split_chunks(response.response.as_str(), chunk_size);
    let mut out: Vec<GenerationResponse> = Vec::new();
    let n = pieces.len();
    let mut i: usize = 0;
    while i < n
        invariant
            i <= n,
            n == pieces@.len(),
            out@.len() == i,
            stream_text(out@) == pieces_concat(pieces@.take(i as int)),
            forall|k: int| 0 <= k < out@.len() ==> !(#[trigger] out@[k]).done,
        decreases n - i,
    {
        let piece = pieces[i].clone();
        let record = GenerationResponse {
            model: response.model.clone(),
            created_at: response.created_at.clone(),
            response: piece,
            done: false,
            context: None,
            total_duration: None,
            load_duration: None,
            prompt_eval_count: None,
            prompt_eval_duration: None,
            eval_count: None,
            eval_duration: None,
        };
        proof {
            lemma_stream_text_push(out@, record);
            lemma_pieces_concat_push_take(pieces@, i as int);
        }
        out.push(record);
        i = i + 1;
    }
    proof {
        assert(pieces@.take(n as int) =~= pieces@);
    }
    let last = GenerationResponse {
        model: response.model,
        created_at: response.created_at,
        response: String::new(),
        done: response.done,
        context: response.context,
        total_duration: response.total_duration,
        load_duration: response.load_duration,
        prompt_eval_count: response.prompt_eval_count,
        prompt_eval_duration: response.prompt_eval_duration,
        eval_count: response.eval_count,
        eval_duration: response.eval_duration,
    };
    proof {
        lemma_stream_text_push(out@, last);
    }
    out.push(last);
    out
}

proof fn lemma_pieces_concat_push_take(ps: Seq<String>, i: int)
    requires
        0 <= i < ps.len(),
    ensures
        pieces_concat(ps.take(i + 1)) == pieces_concat(ps.take(i)) + ps[i]@,
{
    assert(ps.take(i + 1) =~= ps.take(i).push(ps[i]));
    lemma_pieces_concat_push(ps.take(i), ps[i]);
}

/// Once a load has put an identifier into the table, every later load
/// finds it there: with `load_model`'s contract, whose result is the prior
/// absence of the identifier, at most the first of any number of loads of
/// one identifier inserts an instance, and the rest reuse it.
pub proof fn lemma_single_flight(ids: Seq<Seq<char>>, id: Seq<char>)
    ensures
        contains_id(ids.push(id), id),
{
    assert(ids.push(id)[ids.len() as int] == id);
}

} // verus!
