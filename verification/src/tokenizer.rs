//! A minimal reference tokenizer adapter and whitespace trimming.
//!
//! The reference adapter maps every character to its Unicode scalar value,
//! so that the round-trip behaviour of encoding and decoding can be stated
//! and proved exactly. It also serves as the adapter of the scripted
//! backend that tests drive the generation loop with. Trimming removes the
//! four ASCII whitespace characters (space, tab, line feed, carriage
//! return) from both ends of the final text.

use vstd::prelude::*;
use vstd::string::StrSliceExecFns;
use vstd::string::StringExecFns;
use vstd::utf8::char_u32_cast;
use vstd::utf8::char_is_scalar;

verus! {

/// Beginning-of-sequence token of the reference adapter: one past the
/// largest Unicode scalar value, so no encoded character collides with it.
pub const CHAR_BOS: u32 = 0x110000;

/// End-of-sequence token of the reference adapter.
pub const CHAR_EOS: u32 = 0x110001;

/// A `u32` that is the scalar value of some character.
pub open spec fn is_char_token(v: u32) -> bool {
    v < 0xD800 || (0xE000 <= v && v <= 0x10FFFF)
}

/// Token ids of a text: each character becomes its scalar value.
pub open spec fn encode_chars(s: Seq<char>) -> Seq<u32> {
    Seq::new(s.len(), |i: int| s[i] as u32)
}

/// Text of a token sequence: each id that is a valid scalar value becomes
/// its character; other ids (such as the special tokens) are skipped.
pub open spec fn decode_ids(ids: Seq<u32>) -> Seq<char>
    decreases ids.len(),
{
    if ids.len() == 0 {
        Seq::empty()
    } else {
        let head: Seq<char> = if is_char_token(ids[0]) {
            seq![ids[0] as char]
        } else {
            Seq::empty()
        };
        head + decode_ids(ids.drop_first())
    }
}

/// Decoding inverts encoding: a text whose tokens all lie in the adapter's
/// vocabulary (every text, for this adapter) is reproduced exactly.
pub proof fn lemma_decode_encode(s: Seq<char>)
    ensures
        decode_ids(encode_chars(s)) == s,
    decreases s.len(),
{
    if s.len() == 0 {
        assert(decode_ids(encode_chars(s)) =~= s);
    } else {
        char_is_scalar(s[0]);
        char_u32_cast(s[0], s[0] as u32);
        lemma_decode_encode(s.drop_first());
        assert(encode_chars(s).drop_first() =~= encode_chars(s.drop_first()));
        assert(decode_ids(encode_chars(s)) =~= s);
    }
}

/// The reference tokenizer adapter: stateless, character-per-token.
pub struct CharTokenizer {}

impl CharTokenizer {
    /// Encode a text as the scalar values of its characters.
    pub fn encode(&self, text: &str) -> (r: Vec<u32>)
        ensures
            r@ == encode_chars(text@),
    {
        let n = text.unicode_len();
        let mut out: Vec<u32> = Vec::new();
        let mut i: usize = 0;
        while i < n
            invariant
                i <= n,
                n == text@.len(),
                out@ == encode_chars(text@.take(i as int)),
            decreases n - i,
        {
            let c = text.get_char(i);
            out.push(c as u32);
            i = i + 1;
            proof {
                assert(out@ =~= encode_chars(text@.take(i as int)));
            }
        }
        proof {
            assert(text@.take(n as int) =~= text@);
        }
        out
    }

    /// Decode token ids back to text, skipping ids that are no character.
    pub fn decode(&self, ids: &Vec<u32>) -> (r: String)
        ensures
            r@ == decode_ids(ids@),
    {
        let mut out = String::new();
        let n = ids.len();
        let mut i: usize = 0;
        while i < n
            invariant
                i <= n,
                n == ids@.len(),
                out@ == decode_ids(ids@.take(i as int)),
            decreases n - i,
        {
            let v = ids[i];
            if v < 0xD800 || (0xE000 <= v && v <= 0x10FFFF) {
                let c = char_of_scalar(v);
                push_char(&mut out, c);
            }
            i = i + 1;
            proof {
                lemma_decode_take_step(ids@, i as int);
            }
        }
        proof {
            assert(ids@.take(n as int) =~= ids@);
        }
        out
    }
}

/// Decoding one more id appends at most one character.
proof fn lemma_decode_take_step(ids: Seq<u32>, i: int)
    requires
        0 < i <= ids.len(),
    ensures
        decode_ids(ids.take(i)) == decode_ids(ids.take(i - 1)) + (if is_char_token(
            ids[i - 1],
        ) {
            seq![ids[i - 1] as char]
        } else {
            Seq::<char>::empty()
        }),
    decreases i,
{
    if i == 1 {
        assert(ids.take(1).drop_first() =~= Seq::<u32>::empty());
        assert(ids.take(0) =~= Seq::<u32>::empty());
        assert(decode_ids(ids.take(1)) =~= decode_ids(ids.take(0)) + (if is_char_token(ids[0]) {
            seq![ids[0] as char]
        } else {
            Seq::<char>::empty()
        }));
    } else {
        lemma_decode_take_step(ids.drop_first(), i - 1);
        assert(ids.take(i).drop_first() =~= ids.drop_first().take(i - 1));
        assert(ids.take(i - 1).drop_first() =~= ids.drop_first().take(i - 2));
        assert(decode_ids(ids.take(i)) =~= decode_ids(ids.take(i - 1)) + (if is_char_token(
            ids[i - 1],
        ) {
            seq![ids[i - 1] as char]
        } else {
            Seq::<char>::empty()
        }));
    }
}

/// Relies on char::from_u32 of std: it returns the character with the given
/// scalar value exactly when the value is no surrogate and at most 0x10FFFF.
#[verifier::external_body]
pub(crate) fn char_of_scalar(v: u32) -> (r: char)
    requires
        is_char_token(v),
    ensures
        r as u32 == v,
{
    char::from_u32(v).unwrap_or(' ')
}

/// Relies on String::push of std: it appends the given character to the end
/// of the string.
#[verifier::external_body]
fn push_char(s: &mut String, c: char)
    ensures
        final(s)@ == old(s)@ + seq![c],
{
    s.push(c);
}

/// The four characters trimming removes.
pub open spec fn is_blank(c: char) -> bool {
    c == ' ' || c == '\t' || c == '\n' || c == '\r'
}

/// The text with leading blanks removed.
pub open spec fn trim_front(s: Seq<char>) -> Seq<char>
    decreases s.len(),
{
    if s.len() > 0 && is_blank(s[0]) {
        trim_front(s.drop_first())
    } else {
        s
    }
}

/// The text with trailing blanks removed.
pub open spec fn trim_back(s: Seq<char>) -> Seq<char>
    decreases s.len(),
{
    if s.len() > 0 && is_blank(s.last()) {
        trim_back(s.drop_last())
    } else {
        s
    }
}

/// The text with blanks removed from both ends.
pub open spec fn trim_spec(s: Seq<char>) -> Seq<char> {
    trim_back(trim_front(s))
}

proof fn lemma_trim_front_at(s: Seq<char>, i: int)
    requires
        0 <= i <= s.len(),
        forall|k: int| 0 <= k < i ==> is_blank(s[k]),
        i < s.len() ==> !is_blank(s[i]),
    ensures
        trim_front(s) == s.subrange(i, s.len() as int),
    decreases i,
{
    if i == 0 {
        assert(s.subrange(0, s.len() as int) =~= s);
    } else {
        lemma_trim_front_at(s.drop_first(), i - 1);
        assert(s.drop_first().subrange(i - 1, s.drop_first().len() as int) =~= s.subrange(
            i,
            s.len() as int,
        ));
    }
}

proof fn lemma_trim_back_at(s: Seq<char>, j: int)
    requires
        0 <= j <= s.len(),
        forall|k: int| j <= k < s.len() ==> is_blank(s[k]),
        j > 0 ==> !is_blank(s[j - 1]),
    ensures
        trim_back(s) == s.subrange(0, j),
    decreases s.len() - j,
{
    if j == s.len() {
        assert(s.subrange(0, s.len() as int) =~= s);
    } else {
        lemma_trim_back_at(s.drop_last(), j);
        assert(s.drop_last().subrange(0, j) =~= s.subrange(0, j));
    }
}

/// Whether a text carries no blank at either end.
pub open spec fn is_trimmed(s: Seq<char>) -> bool {
    s.len() > 0 ==> (!is_blank(s[0]) && !is_blank(s.last()))
}

proof fn lemma_trim_front_no_lead(s: Seq<char>)
    ensures
        trim_front(s).len() > 0 ==> !is_blank(trim_front(s)[0]),
    decreases s.len(),
{
    if s.len() > 0 && is_blank(s[0]) {
        lemma_trim_front_no_lead(s.drop_first());
    }
}

proof fn lemma_trim_back_no_trail(s: Seq<char>)
    ensures
        trim_back(s).len() > 0 ==> !is_blank(trim_back(s).last()),
    decreases s.len(),
{
    if s.len() > 0 && is_blank(s.last()) {
        lemma_trim_back_no_trail(s.drop_last());
    }
}

proof fn lemma_trim_back_is_prefix(s: Seq<char>)
    ensures
        trim_back(s).len() <= s.len(),
        trim_back(s) == s.take(trim_back(s).len() as int),
    decreases s.len(),
{
    if s.len() > 0 && is_blank(s.last()) {
        lemma_trim_back_is_prefix(s.drop_last());
        assert(s.drop_last().take(trim_back(s).len() as int) =~= s.take(
            trim_back(s).len() as int,
        ));
    } else {
        assert(s.take(s.len() as int) =~= s);
    }
}

/// Trimming leaves no blank at either end.
pub proof fn lemma_trim_spec_trimmed(s: Seq<char>)
    ensures
        is_trimmed(trim_spec(s)),
{
    let t1 = trim_front(s);
    let t = trim_back(t1);
    lemma_trim_front_no_lead(s);
    lemma_trim_back_no_trail(t1);
    lemma_trim_back_is_prefix(t1);
    if t.len() > 0 {
        assert(t[0] == t1[0]);
    }
}

/// Whether two texts are the same sequence of characters.
pub fn str_eq(a: &str, b: &str) -> (r: bool)
    ensures
        r == (a@ == b@),
{
    let na = a.unicode_len();
    let nb = b.unicode_len();
    if na != nb {
        return false;
    }
    let mut i: usize = 0;
    while i < na
        invariant
            i <= na,
            na == a@.len(),
            na == b@.len(),
            forall|k: int| 0 <= k < i ==> a@[k] == b@[k],
        decreases na - i,
    {
        if a.get_char(i) != b.get_char(i) {
            return false;
        }
        i = i + 1;
    }
    proof {
        assert(a@ =~= b@);
    }
    true
}

/// Whether the character is one of the four blanks.
fn is_blank_exec(c: char) -> (r: bool)
    ensures
        r == is_blank(c),
{
    c == ' ' || c == '\t' || c == '\n' || c == '\r'
}

/// Remove blanks from both ends of the text.
pub fn trim_text(s: &str) -> (r: String)
    ensures
        r@ == trim_spec(s@),
{
    let n = s.unicode_len();
    let mut i: usize = 0;
    while i < n && is_blank_exec(s.get_char(i))
        invariant
            i <= n,
            n == s@.len(),
            forall|k: int| 0 <= k < i ==> is_blank(s@[k]),
        decreases n - i,
    {
        i = i + 1;
    }
    proof {
        lemma_trim_front_at(s@, i as int);
    }
    if i == n {
        proof {
            assert(s@.subrange(n as int, n as int) =~= Seq::<char>::empty());
        }
        return String::new();
    }
    let mut j: usize = n;
    while j > i + 1 && is_blank_exec(s.get_char(j - 1))
        invariant
            i < j <= n,
            n == s@.len(),
            !is_blank(s@[i as int]),
            forall|k: int| j <= k < n ==> is_blank(s@[k]),
        decreases j,
    {
        j = j - 1;
    }
    proof {
        let t = trim_front(s@);
        assert(t =~= s@.subrange(i as int, n as int));
        if is_blank(s@[j - 1]) {
            // only possible when j == i + 1, but s@[i] is no blank
            assert(j == i + 1);
            assert(false);
        }
        lemma_trim_back_at(t, j - i);
        assert(t.subrange(0, j - i) =~= s@.subrange(i as int, j as int));
    }
    let piece = s.substring_char(i, j);
    piece.to_owned()
}

} // verus!
