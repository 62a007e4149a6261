//! Splits source text into lines of words, dropping comments.
use vstd::prelude::*;

verus! {

/// True when `c` separates words on a line.
pub open spec fn is_blank(c: char) -> bool {
    c == ' ' || c == '\t' || c == '\r'
}

/// The state of the scan after a prefix of the text.
pub struct LexModel {
    /// The lines already ended.
    pub lines: Seq<Seq<Seq<char>>>,
    /// The words already ended on the current line.
    pub words: Seq<Seq<char>>,
    /// The word being read.
    pub cur: Seq<char>,
    /// True inside a comment, which runs to the end of the line.
    pub comment: bool,
}

/// The words `words` with the word `cur` added after them, unless it is empty.
pub open spec fn flush(words: Seq<Seq<char>>, cur: Seq<char>) -> Seq<Seq<char>> {
    if cur.len() > 0 {
        words.push(cur)
    } else {
        words
    }
}

/// One character's effect on the scan. A `#` that starts a word opens a
/// comment; a newline ends the line and any comment.
pub open spec fn lex_step(st: LexModel, c: char) -> LexModel {
    if c == '\n' {
        LexModel {
            lines: st.lines.push(flush(st.words, st.cur)),
            words: Seq::empty(),
            cur: Seq::empty(),
            comment: false,
        }
    } else if st.comment {
        st
    } else if is_blank(c) {
        LexModel { lines: st.lines, words: flush(st.words, st.cur), cur: Seq::empty(), comment: false }
    } else if c == '#' && st.cur.len() == 0 {
        LexModel { lines: st.lines, words: st.words, cur: st.cur, comment: true }
    } else {
        LexModel { lines: st.lines, words: st.words, cur: st.cur.push(c), comment: false }
    }
}

/// The state of the scan at the start of the text.
pub open spec fn lex_start() -> LexModel {
    LexModel { lines: Seq::empty(), words: Seq::empty(), cur: Seq::empty(), comment: false }
}

/// The state of the scan after `s`, from the state `st`.
pub open spec fn lex_from(st: LexModel, s: Seq<char>) -> LexModel
    decreases s.len(),
{
    if s.len() == 0 {
        st
    } else {
        lex_step(lex_from(st, s.drop_last()), s.last())
    }
}

/// The state of the scan after all of `s`.
pub open spec fn lex(s: Seq<char>) -> LexModel {
    lex_from(lex_start(), s)
}

/// The lines that the scan has read once the text ends in the state `st`.
pub open spec fn finish(st: LexModel) -> Seq<Seq<Seq<char>>> {
    st.lines.push(flush(st.words, st.cur))
}

/// The lines of `s`, each as its words, comments left out.
pub open spec fn lines_of(s: Seq<char>) -> Seq<Seq<Seq<char>>> {
    finish(lex(s))
}

/// True when every character of `s` separates words.
pub open spec fn all_blank(s: Seq<char>) -> bool {
    forall|i: int| 0 <= i < s.len() ==> is_blank(#[trigger] s[i])
}

proof fn lemma_lex_concat(st: LexModel, a: Seq<char>, b: Seq<char>)
    ensures
        lex_from(st, a + b) == lex_from(lex_from(st, a), b),
    decreases b.len(),
{
    if b.len() == 0 {
        assert(a + b =~= a);
    } else {
        assert((a + b).drop_last() =~= a + b.drop_last());
        assert((a + b).last() == b.last());
        lemma_lex_concat(st, a, b.drop_last());
    }
}

proof fn lemma_leading_blanks(pre: Seq<char>)
    requires
        all_blank(pre),
    ensures
        lex_from(lex_start(), pre) == lex_start(),
    decreases pre.len(),
{
    if pre.len() > 0 {
        assert(is_blank(pre[pre.len() - 1]));
        assert(all_blank(pre.drop_last())) by {
            assert forall|i: int| 0 <= i < pre.drop_last().len() implies is_blank(
                #[trigger] pre.drop_last()[i],
            ) by {
                assert(pre.drop_last()[i] == pre[i]);
            }
        }
        lemma_leading_blanks(pre.drop_last());
    }
}

proof fn lemma_trailing_blanks(st: LexModel, post: Seq<char>)
    requires
        all_blank(post),
    ensures
        finish(lex_from(st, post)) == finish(st),
    decreases post.len(),
{
    if post.len() > 0 {
        assert(is_blank(post[post.len() - 1]));
        assert(all_blank(post.drop_last())) by {
            assert forall|i: int| 0 <= i < post.drop_last().len() implies is_blank(
                #[trigger] post.drop_last()[i],
            ) by {
                assert(post.drop_last()[i] == post[i]);
            }
        }
        lemma_trailing_blanks(st, post.drop_last());
    }
}

/// Blanks before and after the text change none of its lines.
pub proof fn lemma_lines_ignore_surrounding_blanks(pre: Seq<char>, s: Seq<char>, post: Seq<char>)
    requires
        all_blank(pre),
        all_blank(post),
    ensures
        lines_of(pre + s + post) == lines_of(s),
{
    lemma_lex_concat(lex_start(), pre + s, post);
    lemma_lex_concat(lex_start(), pre, s);
    lemma_leading_blanks(pre);
    lemma_trailing_blanks(lex(s), post);
}

/// Splits `text` into lines of words, leaving out comments.
pub fn split_lines(text: &str) -> (r: Vec<Vec<String>>)
    ensures
        r.deep_view() == lines_of(text@),
{
    let n = text.unicode_len();
    let mut lines: Vec<Vec<String>> = Vec::new();
    let mut words: Vec<String> = Vec::new();
    let mut start: usize = 0;
    let mut comment = false;
    let mut i: usize = 0;
    proof {
        assert(text@.take(0) =~= Seq::<char>::empty());
        assert(lines.deep_view() =~= Seq::<Seq<Seq<char>>>::empty());
        assert(words.deep_view() =~= Seq::<Seq<char>>::empty());
        assert(text@.subrange(0, 0) =~= Seq::<char>::empty());
    }
    while i < n
        invariant
            n == text@.len(),
            start <= i <= n,
            comment ==> start == i,
            lex(text@.take(i as int)) == (LexModel {
                lines: lines.deep_view(),
                words: words.deep_view(),
                cur: text@.subrange(start as int, i as int),
                comment,
            }),
        decreases n - i,
    {
        let ghost st = lex(text@.take(i as int));
        let c = text.get_char(i);
        proof {
            assert(text@.take(i + 1).drop_last() =~= text@.take(i as int));
            assert(text@.take(i + 1).last() == c);
        }
        if c == '\n' || (!comment && (c == ' ' || c == '\t' || c == '\r')) {
            let ghost old_words = words.deep_view();
            if start < i {
                let w = text.substring_char(start, i).to_owned();
                words.push(w);
            }
            proof {
                assert(words.deep_view() =~= flush(old_words, st.cur));
            }
            if c == '\n' {
                let ghost old_lines = lines.deep_view();
                let mut line: Vec<String> = Vec::new();
                std::mem::swap(&mut line, &mut words);
                lines.push(line);
                comment = false;
                proof {
                    assert(lines.deep_view() =~= old_lines.push(flush(old_words, st.cur)));
                }
            }
            start = i + 1;
        } else if comment {
            start = i + 1;
        } else if c == '#' && start == i {
            comment = true;
            start = i + 1;
        }
        i = i + 1;
        proof {
            assert(text@.subrange(start as int, i as int) =~= lex(text@.take(i as int)).cur);
            assert(words.deep_view() =~= lex(text@.take(i as int)).words);
        }
    }
    proof {
        assert(text@.take(n as int) =~= text@);
    }
    let ghost old_words = words.deep_view();
    let ghost st = lex(text@);
    if start < n {
        let w = text.substring_char(start, n).to_owned();
        words.push(w);
    }
    proof {
        assert(words.deep_view() =~= flush(old_words, st.cur));
    }
    lines.push(words);
    proof {
        assert(lines.deep_view() =~= lines_of(text@));
    }
    lines
}

} // verus!
