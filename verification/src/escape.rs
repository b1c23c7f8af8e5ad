//! HTML escaping: the five characters `&`, `<`, `>`, `"`, `'` become their
//! named entities; every other character passes through unchanged.

use vstd::prelude::*;

verus! {

/// What one character contributes to the escaped output.
pub open spec fn escape_char(c: char) -> Seq<char> {
    if c == '&' {
        seq!['&', 'a', 'm', 'p', ';']
    } else if c == '<' {
        seq!['&', 'l', 't', ';']
    } else if c == '>' {
        seq!['&', 'g', 't', ';']
    } else if c == '"' {
        seq!['&', 'q', 'u', 'o', 't', ';']
    } else if c == '\'' {
        seq!['&', 'a', 'p', 'o', 's', ';']
    } else {
        seq![c]
    }
}

/// The escaped form of a whole character sequence.
pub open spec fn escape_seq(s: Seq<char>) -> Seq<char>
    decreases s.len(),
{
    if s.len() == 0 {
        Seq::empty()
    } else {
        escape_seq(s.drop_last()) + escape_char(s.last())
    }
}

/// Replaces `&`, `<`, `>`, `"`, `'` with `&amp;`, `&lt;`, `&gt;`, `&quot;`,
/// `&apos;`; all other characters pass through unchanged. A pure function of
/// its input, independent of any registry state.
pub fn escape_html(input: &str) -> (out: String)
    ensures
        out@ == escape_seq(input@),
{
    let n = input.unicode_len();
    let mut out = String::new();
    let mut i: usize = 0;
    while i < n
        invariant
            i <= n,
            n == input@.len(),
            out@ == escape_seq(input@.take(i as int)),
        decreases n - i,
    {
        let c = input.get_char(i);
        if c == '&' {
            proof {
                reveal_strlit("&amp;");
            }
            out.append("&amp;");
        } else if c == '<' {
            proof {
                reveal_strlit("&lt;");
            }
            out.append("&lt;");
        } else if c == '>' {
            proof {
                reveal_strlit("&gt;");
            }
            out.append("&gt;");
        } else if c == '"' {
            proof {
                reveal_strlit("&quot;");
            }
            out.append("&quot;");
        } else if c == '\'' {
            proof {
                reveal_strlit("&apos;");
            }
            out.append("&apos;");
        } else {
            let piece = input.substring_char(i, i + 1);
            out.append(piece);
            proof {
                assert(piece@ =~= seq![input@[i as int]]);
            }
        }
        proof {
            assert(input@.take(i + 1 as int).drop_last() =~= input@.take(i as int));
            assert(input@.take(i + 1 as int).last() == input@[i as int]);
            assert(out@ =~= escape_seq(input@.take(i + 1 as int)));
        }
        i = i + 1;
    }
    proof {
        assert(input@.take(n as int) =~= input@);
    }
    out
}

/// Escaping never shortens its input.
pub proof fn lemma_escape_len(s: Seq<char>)
    ensures
        escape_seq(s).len() >= s.len(),
    decreases s.len(),
{
    if s.len() > 0 {
        lemma_escape_len(s.drop_last());
    }
}

/// If the input holds an ampersand, the escaped form is strictly longer than
/// the input and itself holds an ampersand.
pub proof fn lemma_escape_amp(s: Seq<char>)
    requires
        exists|i: int| 0 <= i < s.len() && s[i] == '&',
    ensures
        escape_seq(s).len() > s.len(),
        exists|j: int| 0 <= j < escape_seq(s).len() && escape_seq(s)[j] == '&',
    decreases s.len(),
{
    let i = choose|i: int| 0 <= i < s.len() && s[i] == '&';
    if s.last() == '&' {
        lemma_escape_len(s.drop_last());
        let tail = escape_char(s.last());
        let pre = escape_seq(s.drop_last());
        assert(escape_seq(s)[pre.len() as int] == tail[0]);
    } else {
        assert(s.drop_last()[i] == '&');
        lemma_escape_amp(s.drop_last());
        let pre = escape_seq(s.drop_last());
        let j = choose|j: int| 0 <= j < pre.len() && pre[j] == '&';
        assert(escape_seq(s)[j] == '&');
        assert(escape_char(s.last()).len() >= 1);
    }
}

/// Escaping is not idempotent on text that already holds an ampersand:
/// applying it a second time escapes the entities introduced by the first
/// application, so the result changes (double-escaping occurs).
pub proof fn lemma_escape_not_idempotent(s: Seq<char>)
    requires
        exists|i: int| 0 <= i < s.len() && s[i] == '&',
    ensures
        escape_seq(escape_seq(s)) != escape_seq(s),
{
    lemma_escape_amp(s);
    lemma_escape_amp(escape_seq(s));
}

} // verus!
