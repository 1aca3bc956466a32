//! Chat-prompt rendering: a fixed instruction-wrapping template.
//!
//! An optional system preamble is wrapped once at the start; each user turn
//! opens an instruction span, each assistant turn closes the preceding span
//! with its content; a closing instruction marker is appended if the
//! rendered prompt does not already end with one.

use crate::messages::ChatMessage;
use vstd::prelude::*;
use vstd::string::StrSliceExecFns;
use vstd::string::StringExecFns;

verus! {

/// The system preamble: the system text wrapped once at the start.
pub open spec fn sys_preamble(sys: Seq<char>) -> Seq<char> {
    "<s>[INST] <<SYS>>"@ + sys + "<</SYS>>"@
}

/// Text contributed by one turn. The first user turn of a conversation
/// without a system preamble opens the first instruction span; every other
/// user turn closes the running span and opens a new one; an assistant turn
/// closes the span with its content. Turns with any other role contribute
/// nothing.
pub open spec fn turn_text(m: ChatMessage, opens_first: bool) -> Seq<char> {
    if m.role@ == "user"@ {
        if opens_first {
            "<s>[INST] "@ + m.content@
        } else {
            " </s><s>[INST] "@ + m.content@
        }
    } else if m.role@ == "assistant"@ {
        " "@ + m.content@ + " </s>"@
    } else {
        Seq::empty()
    }
}

/// Text of the turns from index `i` on.
pub open spec fn turns_text(ms: Seq<ChatMessage>, i: int, has_system: bool) -> Seq<char>
    decreases ms.len() - i,
{
    if i < 0 || i >= ms.len() {
        Seq::empty()
    } else {
        turn_text(ms[i], i == 0 && !has_system) + turns_text(ms, i + 1, has_system)
    }
}

/// Whether `s` ends with `suffix`.
pub open spec fn ends_with(s: Seq<char>, suffix: Seq<char>) -> bool {
    s.len() >= suffix.len() && s.subrange(s.len() - suffix.len(), s.len() as int) == suffix
}

/// The rendered prompt: preamble, turns, and a trailing closing marker
/// unless the turns already end with one.
pub open spec fn render_spec(ms: Seq<ChatMessage>, sys: Option<Seq<char>>) -> Seq<char> {
    let base = (match sys {
        Some(s) => sys_preamble(s),
        None => Seq::empty(),
    }) + turns_text(ms, 0, sys is Some);
    if ends_with(base, "[/INST]"@) {
        base
    } else {
        base + " [/INST]"@
    }
}

/// Whether the accumulated prompt ends with the closing marker `[/INST]`.
fn ends_with_closing_marker(s: &String) -> (r: bool)
    ensures
        r == ends_with(s@, "[/INST]"@),
{
    proof {
        reveal_strlit("[/INST]");
    }
    let marker = "[/INST]";
    let text = s.as_str();
    let n = text.unicode_len();
    if n < 7 {
        return false;
    }
    let mut j: usize = 0;
    while j < 7
        invariant
            j <= 7,
            7 <= n,
            n == text@.len(),
            text@ == s@,
            marker@ == "[/INST]"@,
            marker@.len() == 7,
            forall|k: int| 0 <= k < j ==> s@[n - 7 + k] == marker@[k],
        decreases 7 - j,
    {
        if text.get_char(n - 7 + j) != marker.get_char(j) {
            proof {
                assert(s@.subrange(s@.len() - 7, s@.len() as int)[j as int] == s@[n - 7 + j as int]);
            }
            return false;
        }
        j = j + 1;
    }
    proof {
        assert(s@.subrange(s@.len() - 7, s@.len() as int) =~= "[/INST]"@);
    }
    true
}

/// Render an ordered list of turns and an optional system text into a
/// single prompt.
pub fn render_chat_prompt(messages: &Vec<ChatMessage>, system: Option<&String>) -> (r: String)
    ensures
        r@ == render_spec(
            messages@,
            match system {
                Some(s) => Some(s@),
                None => None,
            },
        ),
{
    let mut out = String::new();
    let has_system = system.is_some();
    if let Some(sys) = system {
        out.append("<s>[INST] <<SYS>>");
        out.append(sys.as_str());
        out.append("<</SYS>>");
        proof {
            assert(out@ =~= sys_preamble(sys@));
        }
    }
    let ghost base0 = out@;
    let role_user = String::from_str("user");
    let role_assistant = String::from_str("assistant");
    let n = messages.len();
    let mut i: usize = 0;
    while i < n
        invariant
            i <= n,
            n == messages@.len(),
            role_user@ == "user"@,
            role_assistant@ == "assistant"@,
            out@ + turns_text(messages@, i as int, has_system) == base0 + turns_text(
                messages@,
                0,
                has_system,
            ),
        decreases n - i,
    {
        let m = &messages[i];
        let opens_first = i == 0 && !has_system;
        if m.role == role_user {
            if opens_first {
                out.append("<s>[INST] ");
            } else {
                out.append(" </s><s>[INST] ");
            }
            out.append(m.content.as_str());
        } else if m.role == role_assistant {
            out.append(" ");
            out.append(m.content.as_str());
            out.append(" </s>");
        }
        i = i + 1;
        proof {
            assert(out@ + turns_text(messages@, i as int, has_system) =~= base0 + turns_text(
                messages@,
                0,
                has_system,
            ));
        }
    }
    proof {
        assert(turns_text(messages@, n as int, has_system) =~= Seq::<char>::empty());
        assert(out@ =~= base0 + turns_text(messages@, 0, has_system));
    }
    if !ends_with_closing_marker(&out) {
        out.append(" [/INST]");
    }
    out
}

/// A single user turn without a system text renders to the content wrapped
/// in one instruction span: it begins with the opening marker, carries the
/// content, and ends with the closing marker, provided the content itself
/// does not end with a closing marker.
pub proof fn lemma_single_user_turn(m: ChatMessage, ms: Seq<ChatMessage>)
    requires
        ms == seq![m],
        m.role@ == "user"@,
        !ends_with("<s>[INST] "@ + m.content@, "[/INST]"@),
    ensures
        render_spec(ms, None) == "<s>[INST] "@ + m.content@ + " [/INST]"@,
{
    assert(turns_text(ms, 1, false) =~= Seq::<char>::empty());
    assert(turns_text(ms, 0, false) =~= "<s>[INST] "@ + m.content@);
    assert(Seq::<char>::empty() + turns_text(ms, 0, false) =~= "<s>[INST] "@ + m.content@);
    assert(("<s>[INST] "@ + m.content@) + " [/INST]"@ =~= "<s>[INST] "@ + m.content@
        + " [/INST]"@);
}

/// Adding a system text prepends the wrapped preamble, and every user turn
/// then closes the running span before opening its own.
pub proof fn lemma_system_prepends_preamble(ms: Seq<ChatMessage>, sys: Seq<char>)
    requires
        ms.len() > 0,
    ensures
        ({
            let base = sys_preamble(sys) + turns_text(ms, 0, true);
            render_spec(ms, Some(sys)) == if ends_with(base, "[/INST]"@) {
                base
            } else {
                base + " [/INST]"@
            }
        }),
        render_spec(ms, Some(sys)).take(sys_preamble(sys).len() as int) == sys_preamble(sys),
{
    let base = sys_preamble(sys) + turns_text(ms, 0, true);
    let pre = sys_preamble(sys);
    if ends_with(base, "[/INST]"@) {
        assert(render_spec(ms, Some(sys)).take(pre.len() as int) =~= pre);
    } else {
        assert(render_spec(ms, Some(sys)).take(pre.len() as int) =~= pre);
    }
}

} // verus!
