//! Properties of the scanner as a whole, proved over the rules in `lexicon`.
use crate::lexicon::{
    end_token, lemma_lex_from_regions, lemma_step_progress, lex_diagnostics, lex_from, lex_tokens,
    step, Outcome,
};
use crate::scanner::reports_of;
use crate::token::{Kind, SpecToken, TokenType};
use vstd::prelude::*;

verus! {

/// The text of `s` left once whitespace and comments are dropped: the
/// characters of every lexeme that is not skipped, in order.
pub open spec fn significant_from(s: Seq<char>, i: int) -> Seq<char>
    decreases s.len() - i,
{
    if i < 0 || i >= s.len() {
        seq![]
    } else {
        let st = step(s, i);
        if st.end <= i || st.end > s.len() {
            seq![]
        } else {
            match st.outcome {
                Outcome::Skip => significant_from(s, st.end),
                _ => s.subrange(i, st.end) + significant_from(s, st.end),
            }
        }
    }
}

pub open spec fn significant_text(s: Seq<char>) -> Seq<char> {
    significant_from(s, 0)
}

/// The characters of `s` that the tokens `ts` cover, token after token.
pub open spec fn spans_text(s: Seq<char>, ts: Seq<SpecToken>) -> Seq<char>
    decreases ts.len(),
{
    if ts.len() == 0 {
        seq![]
    } else {
        s.subrange(ts[0].offset as int, (ts[0].offset + ts[0].length) as int) + spans_text(
            s,
            ts.drop_first(),
        )
    }
}

/// The token sequence of any input ends with the end-of-input marker, and
/// no other token is one.
pub proof fn law_single_end_marker(s: Seq<char>)
    ensures
        lex_tokens(s).len() >= 1,
        lex_tokens(s).last() == end_token(s),
        lex_tokens(s).last().kind == Kind::Plain(TokenType::EOF),
        forall|k: int|
            0 <= k < lex_tokens(s).len() - 1 ==> #[trigger] lex_tokens(s)[k].kind != Kind::Plain(
                TokenType::EOF,
            ),
{
    lemma_lex_from_regions(s, 0);
    assert forall|k: int| 0 <= k < lex_tokens(s).len() - 1 implies #[trigger] lex_tokens(
        s,
    )[k].kind != Kind::Plain(TokenType::EOF) by {
        assert(lex_tokens(s)[k] == lex_from(s, 0).0[k]);
    }
}

/// Every token but the last covers a non-empty region of the input, the
/// tokens come in order without overlapping, and the last one is the empty
/// region at the end of the input.
pub proof fn law_token_regions(s: Seq<char>)
    ensures
        forall|k: int|
            0 <= k < lex_tokens(s).len() - 1 ==> {
                let t = #[trigger] lex_tokens(s)[k];
                &&& 0 < t.length
                &&& t.offset + t.length <= s.len()
            },
        forall|k: int|
            0 <= k < lex_tokens(s).len() - 1 ==> #[trigger] lex_tokens(s)[k].offset
                + lex_tokens(s)[k].length <= lex_tokens(s)[k + 1].offset,
        lex_tokens(s).last().offset == s.len(),
        lex_tokens(s).last().length == 0,
{
    lemma_lex_from_regions(s, 0);
    lemma_ordered(s, 0);
    assert forall|k: int| 0 <= k < lex_tokens(s).len() - 1 implies {
        let t = #[trigger] lex_tokens(s)[k];
        &&& 0 < t.length
        &&& t.offset + t.length <= s.len()
    } by {
        assert(lex_tokens(s)[k] == lex_from(s, 0).0[k]);
    }
    assert forall|k: int| 0 <= k < lex_tokens(s).len() - 1 implies #[trigger] lex_tokens(
        s,
    )[k].offset + lex_tokens(s)[k].length <= lex_tokens(s)[k + 1].offset by {
        assert(lex_tokens(s)[k] == lex_from(s, 0).0[k]);
        if k + 1 < lex_from(s, 0).0.len() {
            assert(lex_tokens(s)[k + 1] == lex_from(s, 0).0[k + 1]);
        }
    }
}

proof fn lemma_ordered(s: Seq<char>, i: int)
    requires
        0 <= i <= s.len(),
    ensures
        forall|k: int|
            0 <= k < lex_from(s, i).0.len() - 1 ==> #[trigger] lex_from(s, i).0[k].offset
                + lex_from(s, i).0[k].length <= lex_from(s, i).0[k + 1].offset,
    decreases s.len() - i,
{
    if i < s.len() {
        lemma_step_progress(s, i);
        let st = step(s, i);
        lemma_ordered(s, st.end);
        lemma_lex_from_regions(s, st.end);
        let rest = lex_from(s, st.end);
        match st.outcome {
            Outcome::Emit(kd) => {
                assert forall|k: int| 0 <= k < lex_from(s, i).0.len() - 1 implies #[trigger] lex_from(
                    s,
                    i,
                ).0[k].offset + lex_from(s, i).0[k].length <= lex_from(s, i).0[k + 1].offset by {
                    assert(lex_from(s, i).0[k + 1] == rest.0[k]);
                    if k > 0 {
                        assert(lex_from(s, i).0[k] == rest.0[k - 1]);
                    }
                }
            },
            _ => {},
        }
    }
}

proof fn lemma_spans_text_push(s: Seq<char>, ts: Seq<SpecToken>, t: SpecToken)
    ensures
        spans_text(s, ts.push(t)) == spans_text(s, ts) + s.subrange(
            t.offset as int,
            (t.offset + t.length) as int,
        ),
    decreases ts.len(),
{
    if ts.len() == 0 {
        let tt = ts.push(t);
        assert(tt[0] == t);
        assert(tt.drop_first() =~= Seq::<SpecToken>::empty());
        assert(spans_text(s, tt.drop_first()) == Seq::<char>::empty());
        assert(spans_text(s, ts) == Seq::<char>::empty());
    } else {
        lemma_spans_text_push(s, ts.drop_first(), t);
        assert(ts.push(t).drop_first() =~= ts.drop_first().push(t));
        assert(spans_text(s, ts.push(t)) =~= spans_text(s, ts) + s.subrange(
            t.offset as int,
            (t.offset + t.length) as int,
        ));
    }
}

proof fn lemma_spans_from(s: Seq<char>, i: int)
    requires
        0 <= i <= s.len(),
        lex_from(s, i).1.len() == 0,
    ensures
        spans_text(s, lex_from(s, i).0) == significant_from(s, i),
    decreases s.len() - i,
{
    if i < s.len() {
        lemma_step_progress(s, i);
        let st = step(s, i);
        let rest = lex_from(s, st.end);
        match st.outcome {
            Outcome::Skip => {
                lemma_spans_from(s, st.end);
            },
            Outcome::Emit(k) => {
                lemma_spans_from(s, st.end);
                assert(lex_from(s, i).0.drop_first() =~= rest.0);
            },
            Outcome::Fail(e) => {},
        }
    }
}

/// On an input without lexical errors, the regions of the tokens, read in
/// order, spell the input with its whitespace and comments removed.
pub proof fn law_tokens_spell_input(s: Seq<char>)
    requires
        lex_diagnostics(s).len() == 0,
    ensures
        spans_text(s, lex_tokens(s)) == significant_text(s),
{
    lemma_spans_from(s, 0);
    lemma_spans_text_push(s, lex_from(s, 0).0, end_token(s));
    assert(s.subrange(s.len() as int, s.len() as int) =~= seq![]);
    assert(spans_text(s, lex_from(s, 0).0) + seq![] =~= spans_text(s, lex_from(s, 0).0));
}

/// Scanning depends on nothing but the input: the same text, with reporters
/// over the same source, gives the same tokens, errors and rendered reports.
pub proof fn law_scan_deterministic(s1: Seq<char>, s2: Seq<char>, code1: Seq<char>, code2: Seq<char>)
    requires
        s1 == s2,
        code1 == code2,
    ensures
        lex_tokens(s1) == lex_tokens(s2),
        lex_diagnostics(s1) == lex_diagnostics(s2),
        reports_of(s1, code1) == reports_of(s2, code2),
{
}

} // verus!
