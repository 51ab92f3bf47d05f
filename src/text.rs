//! Character-level helpers: line-ending normalisation, line splitting and
//! whitespace tokenisation.
use vstd::prelude::*;
use vstd::std_specs::iter::IteratorSpec;

verus! {

/// The separators of `split_ascii_whitespace`: space, tab, line feed, form
/// feed and carriage return.
pub open spec fn is_ascii_ws(c: char) -> bool {
    c == ' ' || c == '\t' || c == '\n' || c == '\x0C' || c == '\r'
}

/// `s` with every `\r\n` and every remaining bare `\r` turned into `\n`.
/// A carriage return becomes a line feed, and a line feed right after a
/// carriage return is absorbed by it.
pub open spec fn normalized(s: Seq<char>) -> Seq<char>
    decreases s.len(),
{
    if s.len() == 0 {
        Seq::empty()
    } else {
        let prefix = normalized(s.drop_last());
        let c = s.last();
        if c == '\r' {
            prefix.push('\n')
        } else if c == '\n' && s.len() >= 2 && s[s.len() - 2] == '\r' {
            prefix
        } else {
            prefix.push(c)
        }
    }
}

/// The pieces of `s` between line feeds, as `split('\n')` yields them: one
/// more piece than there are line feeds.
pub open spec fn split_lines(s: Seq<char>) -> Seq<Seq<char>>
    decreases s.len(),
{
    if s.len() == 0 {
        seq![Seq::empty()]
    } else {
        let init = split_lines(s.drop_last());
        if s.last() == '\n' {
            init.push(Seq::empty())
        } else {
            init.update(init.len() - 1, init.last().push(s.last()))
        }
    }
}

/// The maximal runs of non-separator characters of `s`, in order.
pub open spec fn tokens(s: Seq<char>) -> Seq<Seq<char>>
    decreases s.len(),
{
    if s.len() == 0 {
        Seq::empty()
    } else {
        let init = tokens(s.drop_last());
        let c = s.last();
        if is_ascii_ws(c) {
            init
        } else if s.len() == 1 || is_ascii_ws(s[s.len() - 2]) {
            init.push(seq![c])
        } else {
            init.update(init.len() - 1, init.last().push(c))
        }
    }
}

/// The views of a sequence of character vectors.
pub open spec fn views(v: Seq<Vec<char>>) -> Seq<Seq<char>> {
    v.map_values(|x: Vec<char>| x@)
}

pub proof fn lemma_tokens_nonempty(s: Seq<char>)
    requires
        s.len() > 0,
        !is_ascii_ws(s.last()),
    ensures
        tokens(s).len() >= 1,
    decreases s.len(),
{
    if s.len() > 1 && !is_ascii_ws(s[s.len() - 2]) {
        lemma_tokens_nonempty(s.drop_last());
    }
}

pub fn is_separator(c: char) -> (r: bool)
    ensures
        r == is_ascii_ws(c),
{
    c == ' ' || c == '\t' || c == '\n' || c == '\x0C' || c == '\r'
}

/// The characters of `text`, in order.
pub fn chars_of(text: &str) -> (r: Vec<char>)
    ensures
        r@ == text@,
{
    broadcast use vstd::string::axiom_spec_iter, vstd::string::next_postcondition;

    let mut it = text.chars();
    let mut r: Vec<char> = Vec::new();
    loop
        invariant
            r@ + it.remaining() == text@,
            it.decrease() is Some,
        ensures
            r@ == text@,
        decreases it.decrease()->Some_0,
    {
        let ghost before = it.remaining();
        match it.next() {
            Some(c) => {
                r.push(c);
                assert(r@ + it.remaining() =~= text@) by {
                    assert(before =~= seq![c] + before.drop_first());
                }
            },
            None => {
                assert(r@ =~= text@);
                break;
            },
        }
    }
    r
}

/// Turns `\r\n` and bare `\r` line endings into `\n`.
pub fn normalize_line_endings(s: &Vec<char>) -> (r: Vec<char>)
    ensures
        r@ == normalized(s@),
{
    let mut r: Vec<char> = Vec::new();
    let mut i: usize = 0;
    while i < s.len()
        invariant
            i <= s.len(),
            r@ == normalized(s@.subrange(0, i as int)),
        decreases s.len() - i,
    {
        let c = s[i];
        let ghost prefix = s@.subrange(0, i + 1);
        assert(prefix.drop_last() =~= s@.subrange(0, i as int));
        if c == '\r' {
            r.push('\n');
        } else if c == '\n' && i >= 1 && s[i - 1] == '\r' {
        } else {
            r.push(c);
        }
        i = i + 1;
    }
    assert(s@.subrange(0, s@.len() as int) =~= s@);
    r
}

/// Splits `s` at every line feed.
pub fn split_at_line_feeds(s: &Vec<char>) -> (r: Vec<Vec<char>>)
    ensures
        views(r@) == split_lines(s@),
{
    let mut done: Vec<Vec<char>> = Vec::new();
    let mut cur: Vec<char> = Vec::new();
    let mut i: usize = 0;
    assert(views(done@).push(cur@) =~= split_lines(s@.subrange(0, 0)));
    while i < s.len()
        invariant
            i <= s.len(),
            views(done@).push(cur@) == split_lines(s@.subrange(0, i as int)),
        decreases s.len() - i,
    {
        let c = s[i];
        let ghost prefix = s@.subrange(0, i + 1);
        assert(prefix.drop_last() =~= s@.subrange(0, i as int));
        if c == '\n' {
            let ghost before = done@;
            let ghost line = cur@;
            done.push(cur);
            cur = Vec::new();
            assert(views(done@) =~= views(before).push(line));
            assert(views(done@).push(cur@) =~= split_lines(prefix));
        } else {
            cur.push(c);
            assert(views(done@).push(cur@) =~= split_lines(prefix));
        }
        i = i + 1;
    }
    let ghost before = done@;
    let ghost line = cur@;
    done.push(cur);
    assert(views(done@) =~= views(before).push(line));
    assert(s@.subrange(0, s@.len() as int) =~= s@);
    done
}

/// Splits `s` into its whitespace-separated tokens.
pub fn split_tokens(s: &Vec<char>) -> (r: Vec<Vec<char>>)
    ensures
        views(r@) == tokens(s@),
{
    let mut toks: Vec<Vec<char>> = Vec::new();
    let mut i: usize = 0;
    assert(views(toks@) =~= tokens(s@.subrange(0, 0)));
    while i < s.len()
        invariant
            i <= s.len(),
            views(toks@) == tokens(s@.subrange(0, i as int)),
        decreases s.len() - i,
    {
        let c = s[i];
        let ghost prefix = s@.subrange(0, i + 1);
        assert(prefix.drop_last() =~= s@.subrange(0, i as int));
        if is_separator(c) {
        } else if i == 0 || is_separator(s[i - 1]) {
            let ghost before = toks@;
            let mut first: Vec<char> = Vec::new();
            first.push(c);
            assert(first@ =~= seq![c]);
            toks.push(first);
            assert(views(toks@) =~= views(before).push(seq![c]));
            assert(views(toks@) =~= tokens(prefix));
        } else {
            proof {
                lemma_tokens_nonempty(prefix.drop_last());
            }
            let mut last = toks.pop().unwrap();
            last.push(c);
            toks.push(last);
            assert(views(toks@) =~= tokens(prefix));
        }
        i = i + 1;
    }
    assert(s@.subrange(0, s@.len() as int) =~= s@);
    toks
}

} // verus!
