//! Splitting a SQL body into executable statements.
//!
//! A body is cut at every `;`. Line comments (`--` through the end of
//! the line) are removed first, each fragment is trimmed of surrounding
//! whitespace, and empty fragments are dropped, so comment-only and
//! whitespace-only fragments are never sent to the store. Every
//! non-empty statement is kept — none is implicitly dropped, in either
//! direction of a migration.

use vstd::prelude::*;
use vstd::seq_lib::*;

verus! {

/// Whitespace as far as trimming is concerned.
pub open spec fn is_space(c: char) -> bool {
    c == ' ' || c == '\t' || c == '\r' || c == '\n'
}

/// One left-to-right pass removing line comments. In a comment,
/// everything up to (but not including) the next newline is dropped;
/// outside one, `--` opens a comment and every other character is kept.
pub open spec fn strip_comments_from(s: Seq<char>, in_comment: bool) -> Seq<char>
    decreases s.len(),
{
    if s.len() == 0 {
        Seq::empty()
    } else if in_comment {
        if s[0] == '\n' {
            seq!['\n'] + strip_comments_from(s.drop_first(), false)
        } else {
            strip_comments_from(s.drop_first(), true)
        }
    } else if s.len() >= 2 && s[0] == '-' && s[1] == '-' {
        strip_comments_from(s.skip(2), true)
    } else {
        seq![s[0]] + strip_comments_from(s.drop_first(), false)
    }
}

/// The body with every line comment removed.
pub open spec fn strip_comments(s: Seq<char>) -> Seq<char> {
    strip_comments_from(s, false)
}

/// Cutting at every `;`, with `cur` the fragment accumulated so far.
/// A body with `n` separators yields exactly `n + 1` fragments.
pub open spec fn split_semi(s: Seq<char>, cur: Seq<char>) -> Seq<Seq<char>>
    decreases s.len(),
{
    if s.len() == 0 {
        seq![cur]
    } else if s[0] == ';' {
        seq![cur] + split_semi(s.drop_first(), Seq::empty())
    } else {
        split_semi(s.drop_first(), cur.push(s[0]))
    }
}

pub open spec fn trim_front(s: Seq<char>) -> Seq<char>
    decreases s.len(),
{
    if s.len() > 0 && is_space(s[0]) {
        trim_front(s.drop_first())
    } else {
        s
    }
}

pub open spec fn trim_back(s: Seq<char>) -> Seq<char>
    decreases s.len(),
{
    if s.len() > 0 && is_space(s.last()) {
        trim_back(s.drop_last())
    } else {
        s
    }
}

/// The fragment without leading and trailing whitespace.
pub open spec fn trim(s: Seq<char>) -> Seq<char> {
    trim_back(trim_front(s))
}

/// Keep only non-empty fragments.
pub open spec fn nonempty_pred() -> spec_fn(Seq<char>) -> bool {
    |f: Seq<char>| f.len() != 0
}

/// The statements of a SQL body: comments removed, cut at `;`, each
/// fragment trimmed, empty fragments dropped.
pub open spec fn spec_statements(body: Seq<char>) -> Seq<Seq<char>> {
    split_semi(strip_comments(body), Seq::empty()).map_values(|f: Seq<char>| trim(f)).filter(
        nonempty_pred(),
    )
}

/// The contents of a list of strings.
pub open spec fn strings_model(s: Seq<String>) -> Seq<Seq<char>> {
    s.map_values(|x: String| x@)
}

/// The contents of a list of character buffers.
pub open spec fn char_vecs_model(s: Seq<Vec<char>>) -> Seq<Seq<char>> {
    s.map_values(|x: Vec<char>| x@)
}

fn is_space_exec(c: char) -> (b: bool)
    ensures
        b == is_space(c),
{
    c == ' ' || c == '\t' || c == '\r' || c == '\n'
}

/// Relies on String's FromIterator impl: collecting characters yields
/// the string made of exactly those characters in order.
#[verifier::external_body]
fn chars_to_string(v: Vec<char>) -> (r: String)
    ensures
        r@ == v@,
{
    String::from_iter(v)
}

/// Removes line comments from a body.
fn strip_comments_exec(s: &str) -> (r: Vec<char>)
    ensures
        r@ == strip_comments(s@),
{
    let n = s.unicode_len();
    let mut out: Vec<char> = Vec::new();
    let mut in_comment = false;
    let mut i: usize = 0;
    proof {
        assert(s@.skip(0) =~= s@);
        assert(out@ + strip_comments_from(s@, false) =~= strip_comments_from(s@, false));
    }
    while i < n
        invariant
            n == s@.len(),
            0 <= i <= n,
            strip_comments(s@) == out@ + strip_comments_from(s@.skip(i as int), in_comment),
        decreases n - i,
    {
        let ghost rest = s@.skip(i as int);
        proof {
            assert(rest.len() == n - i);
            assert(rest[0] == s@[i as int]);
            assert(rest.drop_first() =~= s@.skip(i as int + 1));
        }
        let c = s.get_char(i);
        if in_comment {
            if c == '\n' {
                let ghost pre = out@;
                out.push('\n');
                in_comment = false;
                proof {
                    assert(out@ + strip_comments_from(s@.skip(i as int + 1), false) =~= pre + (
                    seq!['\n'] + strip_comments_from(rest.drop_first(), false)));
                }
            }
            i = i + 1;
        } else if c == '-' && i + 1 < n && s.get_char(i + 1) == '-' {
            proof {
                assert(rest[1] == s@[i as int + 1]);
                assert(rest.skip(2) =~= s@.skip(i as int + 2));
            }
            in_comment = true;
            i = i + 2;
        } else {
            let ghost pre = out@;
            out.push(c);
            proof {
                if c == '-' && i + 1 < n {
                    assert(rest[1] == s@[i as int + 1]);
                }
                assert(out@ + strip_comments_from(rest.drop_first(), false) =~= pre + (seq![c]
                    + strip_comments_from(rest.drop_first(), false)));
            }
            i = i + 1;
        }
    }
    proof {
        assert(s@.skip(n as int) =~= Seq::<char>::empty());
        assert(out@ + Seq::<char>::empty() =~= out@);
    }
    out
}

/// Cuts a comment-free body at every `;`.
fn split_semi_exec(v: &Vec<char>) -> (r: Vec<Vec<char>>)
    ensures
        char_vecs_model(r@) == split_semi(v@, Seq::empty()),
{
    let mut out: Vec<Vec<char>> = Vec::new();
    let mut cur: Vec<char> = Vec::new();
    let mut i: usize = 0;
    proof {
        assert(v@.skip(0) =~= v@);
        assert(char_vecs_model(out@) + split_semi(v@, Seq::<char>::empty()) =~= split_semi(
            v@,
            Seq::<char>::empty(),
        ));
    }
    while i < v.len()
        invariant
            0 <= i <= v@.len(),
            split_semi(v@, Seq::empty()) == char_vecs_model(out@) + split_semi(
                v@.skip(i as int),
                cur@,
            ),
        decreases v@.len() - i,
    {
        let ghost rest = v@.skip(i as int);
        proof {
            assert(rest[0] == v@[i as int]);
            assert(rest.drop_first() =~= v@.skip(i as int + 1));
        }
        let c = v[i];
        if c == ';' {
            let ghost pre = char_vecs_model(out@);
            let ghost curv = cur@;
            out.push(cur);
            cur = Vec::new();
            proof {
                assert(char_vecs_model(out@) =~= pre.push(curv));
                assert(pre.push(curv) + split_semi(rest.drop_first(), Seq::<char>::empty()) =~= pre
                    + (seq![curv] + split_semi(rest.drop_first(), Seq::<char>::empty())));
            }
        } else {
            cur.push(c);
        }
        i = i + 1;
    }
    let ghost pre = char_vecs_model(out@);
    let ghost last = cur@;
    out.push(cur);
    proof {
        assert(v@.skip(v@.len() as int) =~= Seq::<char>::empty());
        assert(char_vecs_model(out@) =~= pre.push(last));
        assert(pre.push(last) =~= pre + seq![last]);
    }
    out
}

/// Trims surrounding whitespace from a fragment.
fn trim_exec(v: &Vec<char>) -> (r: Vec<char>)
    ensures
        r@ == trim(v@),
{
    let mut a: usize = 0;
    proof {
        assert(v@.skip(0) =~= v@);
    }
    while a < v.len() && is_space_exec(v[a])
        invariant
            0 <= a <= v@.len(),
            trim_front(v@) == trim_front(v@.skip(a as int)),
        decreases v@.len() - a,
    {
        proof {
            assert(v@.skip(a as int)[0] == v@[a as int]);
            assert(v@.skip(a as int).drop_first() =~= v@.skip(a as int + 1));
        }
        a = a + 1;
    }
    proof {
        if a < v@.len() {
            assert(v@.skip(a as int)[0] == v@[a as int]);
        } else {
            assert(v@.skip(a as int) =~= Seq::<char>::empty());
        }
        assert(trim_front(v@) == v@.skip(a as int));
    }
    let ghost u = v@.skip(a as int);
    let mut b: usize = v.len();
    proof {
        assert(u.take(u.len() as int) =~= u);
    }
    while b > a && is_space_exec(v[b - 1])
        invariant
            a <= b <= v@.len(),
            u == v@.skip(a as int),
            trim_back(u) == trim_back(u.take(b - a as int)),
        decreases b,
    {
        proof {
            let w = u.take(b - a as int);
            assert(w.last() == v@[b - 1 as int]);
            assert(w.drop_last() =~= u.take(b - 1 - a as int));
        }
        b = b - 1;
    }
    proof {
        let w = u.take(b - a as int);
        if b > a {
            assert(w.last() == v@[b - 1 as int]);
        }
        assert(trim_back(u) == w);
    }
    let mut out: Vec<char> = Vec::new();
    let mut k: usize = a;
    while k < b
        invariant
            a <= k <= b <= v@.len(),
            u == v@.skip(a as int),
            trim(v@) == u.take(b - a as int),
            out@ =~= v@.subrange(a as int, k as int),
        decreases b - k,
    {
        out.push(v[k]);
        k = k + 1;
    }
    proof {
        assert(out@ =~= u.take(b - a as int));
    }
    out
}

/// Splits a SQL body into the statements actually sent to the store:
/// comments removed, cut at `;`, trimmed, with empty and comment-only
/// fragments discarded.
pub fn split_statements(body: &str) -> (r: Vec<String>)
    ensures
        strings_model(r@) == spec_statements(body@),
{
    let stripped = strip_comments_exec(body);
    let frags = split_semi_exec(&stripped);
    let ghost fm = char_vecs_model(frags@);
    let ghost trimmed = fm.map_values(|f: Seq<char>| trim(f));
    let mut out: Vec<String> = Vec::new();
    let mut i: usize = 0;
    proof {
        assert(strings_model(out@) =~= fm.take(0).map_values(|f: Seq<char>| trim(f)).filter(
            nonempty_pred(),
        ));
    }
    while i < frags.len()
        invariant
            fm == char_vecs_model(frags@),
            0 <= i <= fm.len(),
            frags@.len() == fm.len(),
            strings_model(out@) == fm.take(i as int).map_values(|f: Seq<char>| trim(f)).filter(
                nonempty_pred(),
            ),
        decreases fm.len() - i,
    {
        let t = trim_exec(&frags[i]);
        let ghost pre = strings_model(out@);
        let ghost mapped = fm.take(i as int).map_values(|f: Seq<char>| trim(f));
        if t.len() > 0 {
            assert(nonempty_pred()(trim(fm[i as int])));
            let st = chars_to_string(t);
            out.push(st);
            proof {
                assert(strings_model(out@) =~= pre.push(trim(fm[i as int])));
            }
        } else {
            assert(!nonempty_pred()(trim(fm[i as int])));
        }
        proof {
            mapped.lemma_filter_push(trim(fm[i as int]), nonempty_pred());
            assert(fm.take(i as int + 1) =~= fm.take(i as int).push(fm[i as int]));
            assert(fm.take(i as int + 1).map_values(|f: Seq<char>| trim(f)) =~= mapped.push(
                trim(fm[i as int]),
            ));
        }
        i = i + 1;
    }
    proof {
        assert(fm.take(fm.len() as int) =~= fm);
    }
    out
}

} // verus!
