//! The full-text-search query sanitizer: turns arbitrary user input into a
//! syntactically safe search-engine query.
//!
//! Every character outside the allowed set is replaced by a space, the input
//! is tokenized on spaces, and a two-state machine (outside / inside an open
//! quote) re-emits the tokens: stray quote characters are stripped, quoted
//! phrases are kept together, tokens holding `-` are wrapped in quotes so the
//! engine does not read them as exclusions, and an unterminated quote is
//! closed at the end of the input.

use vstd::prelude::*;
use crate::util::{chars_of, string_from_chars};

verus! {

/// What `char::is_alphanumeric` returns: a fixed function of the character
/// alone, named rather than spelled out.
pub uninterp spec fn spec_is_alphanumeric(c: char) -> bool;

/// Relies on `char::is_alphanumeric`: the result depends on the character
/// alone.
#[verifier::external_body]
fn char_is_alphanumeric(c: char) -> (r: bool)
    ensures
        r == spec_is_alphanumeric(c),
{
    c.is_alphanumeric()
}

/// The sanitizing map: alphanumerics and `-`, `_`, `*`, `"` survive, every
/// other character becomes a space.
pub open spec fn keep_char(c: char) -> char {
    if spec_is_alphanumeric(c) || c == '-' || c == '_' || c == '*' || c == '"' {
        c
    } else {
        ' '
    }
}

/// `t` with every quote character removed.
pub open spec fn strip_quotes(t: Seq<char>) -> Seq<char>
    decreases t.len(),
{
    if t.len() == 0 {
        t
    } else if t.last() != '"' {
        strip_quotes(t.drop_last()).push(t.last())
    } else {
        strip_quotes(t.drop_last())
    }
}

/// The emitted strings so far, whether an open quote is pending, and the
/// pending accumulator.
pub type QueryState = (Seq<Seq<char>>, bool, Seq<char>);

/// Feeds one whole token to the two-state machine and returns the new state.
pub open spec fn step_token(st: QueryState, tok: Seq<char>) -> QueryState {
    let out = st.0;
    let quoted = st.1;
    let acc = st.2;
    if !quoted {
        let t = if tok.contains('"') && tok[0] != '"' {
            strip_quotes(tok)
        } else {
            tok
        };
        if t.len() > 0 && t[0] == '"' {
            if t.last() == '"' {
                (out.push(t), false, acc)
            } else {
                (out, true, t)
            }
        } else {
            if t.contains('-') {
                (out.push(seq!['"'] + t + seq!['"']), false, acc)
            } else {
                (out.push(t), false, acc)
            }
        }
    } else {
        let t = if tok.contains('"') && tok.last() != '"' {
            strip_quotes(tok)
        } else {
            tok
        };
        if t.len() > 0 && t.last() == '"' {
            (out.push(acc + seq![' '] + t), false, Seq::empty())
        } else {
            (out, true, acc + seq![' '] + t)
        }
    }
}

/// Feeds one input character: a sanitized space ends the current token (if
/// any) and hands it to the machine, any other character extends it.
pub open spec fn apply_char(st: QueryState, cur: Seq<char>, c: char) -> (QueryState, Seq<char>) {
    let k = keep_char(c);
    if k == ' ' {
        (if cur.len() > 0 { step_token(st, cur) } else { st }, Seq::empty())
    } else {
        (st, cur.push(k))
    }
}

/// Folds `apply_char` over the input, left to right.
pub open spec fn scan_chars(st: QueryState, cur: Seq<char>, s: Seq<char>) -> (QueryState, Seq<char>)
    decreases s.len(),
{
    if s.len() == 0 {
        (st, cur)
    } else {
        let n = apply_char(st, cur, s[0]);
        scan_chars(n.0, n.1, s.drop_first())
    }
}

/// The emitted strings joined by single spaces.
pub open spec fn join_spaces(parts: Seq<Seq<char>>) -> Seq<char>
    decreases parts.len(),
{
    if parts.len() == 0 {
        Seq::empty()
    } else if parts.len() == 1 {
        parts[0]
    } else {
        join_spaces(parts.drop_last()) + seq![' '] + parts.last()
    }
}

/// The sanitized query: scan the input, flush the last token, close an
/// unterminated quote, join the emissions.
pub open spec fn spec_reformat(s: Seq<char>) -> Seq<char> {
    let r = scan_chars((Seq::empty(), false, Seq::empty()), Seq::empty(), s);
    let st = if r.1.len() > 0 {
        step_token(r.0, r.1)
    } else {
        r.0
    };
    let parts = if st.1 {
        st.0.push(st.2.push('"'))
    } else {
        st.0
    };
    join_spaces(parts)
}

/// The views of a vector of character vectors.
pub open spec fn views(v: Seq<Vec<char>>) -> Seq<Seq<char>> {
    v.map_values(|x: Vec<char>| x@)
}

proof fn lemma_scan_snoc(st: QueryState, cur: Seq<char>, s: Seq<char>, c: char)
    ensures
        scan_chars(st, cur, s.push(c)) == {
            let r = scan_chars(st, cur, s);
            let n = apply_char(r.0, r.1, c);
            scan_chars(n.0, n.1, Seq::empty())
        },
    decreases s.len(),
{
    if s.len() == 0 {
        assert(s.push(c)[0] == c);
        assert(s.push(c).drop_first() =~= Seq::<char>::empty());
    } else {
        assert(s.push(c)[0] == s[0]);
        assert(s.push(c).drop_first() =~= s.drop_first().push(c));
        let n = apply_char(st, cur, s[0]);
        lemma_scan_snoc(n.0, n.1, s.drop_first(), c);
    }
}

fn contains_char(v: &Vec<char>, c: char) -> (r: bool)
    ensures
        r == v@.contains(c),
{
    let mut i: usize = 0;
    while i < v.len()
        invariant
            i <= v@.len(),
            forall|k: int| 0 <= k < i ==> v@[k] != c,
        decreases v@.len() - i,
    {
        if v[i] == c {
            return true;
        }
        i = i + 1;
    }
    false
}

fn strip_quotes_exec(v: &Vec<char>) -> (r: Vec<char>)
    ensures
        r@ == strip_quotes(v@),
{
    let mut r: Vec<char> = Vec::new();
    let mut i: usize = 0;
    while i < v.len()
        invariant
            i <= v@.len(),
            r@ == strip_quotes(v@.take(i as int)),
        decreases v@.len() - i,
    {
        if v[i] != '"' {
            r.push(v[i]);
        }
        proof {
            let t = v@.take(i + 1);
            assert(t.drop_last() =~= v@.take(i as int));
            assert(t.last() == v@[i as int]);
            assert(strip_quotes(t) == (if v@[i as int] != '"' {
                strip_quotes(v@.take(i as int)).push(v@[i as int])
            } else {
                strip_quotes(v@.take(i as int))
            }));
        }
        i = i + 1;
    }
    proof {
        assert(v@.take(v@.len() as int) =~= v@);
    }
    r
}

/// Feeds one complete token to the machine, mutating the emitted strings,
/// the quote flag and the accumulator exactly as `step_token` says.
fn push_token(out: &mut Vec<Vec<char>>, quoted: &mut bool, acc: &mut Vec<char>, tok: Vec<char>)
    requires
        tok@.len() > 0,
    ensures
        (views(final(out)@), *final(quoted), final(acc)@) == step_token(
            (views(old(out)@), *old(quoted), old(acc)@),
            tok@,
        ),
{
    let ghost st0 = (views(old(out)@), *old(quoted), old(acc)@);
    if !*quoted {
        let t = if contains_char(&tok, '"') && tok[0] != '"' {
            strip_quotes_exec(&tok)
        } else {
            tok
        };
        if t.len() > 0 && t[0] == '"' {
            if t[t.len() - 1] == '"' {
                let ghost pre = views(out@);
                out.push(t);
                proof {
                    assert(views(out@) =~= pre.push(out@.last()@));
                }
            } else {
                *quoted = true;
                *acc = t;
            }
        } else {
            if contains_char(&t, '-') {
                let mut w: Vec<char> = Vec::new();
                w.push('"');
                let mut i: usize = 0;
                while i < t.len()
                    invariant
                        i <= t@.len(),
                        w@ == seq!['"'] + t@.take(i as int),
                    decreases t@.len() - i,
                {
                    w.push(t[i]);
                    i = i + 1;
                    proof {
                        assert(w@ =~= seq!['"'] + t@.take(i as int));
                    }
                }
                w.push('"');
                proof {
                    assert(t@.take(t@.len() as int) =~= t@);
                    assert(w@ =~= seq!['"'] + t@ + seq!['"']);
                }
                let ghost pre = views(out@);
                out.push(w);
                proof {
                    assert(views(out@) =~= pre.push(out@.last()@));
                }
            } else {
                let ghost pre = views(out@);
                out.push(t);
                proof {
                    assert(views(out@) =~= pre.push(out@.last()@));
                }
            }
        }
    } else {
        let t = if contains_char(&tok, '"') && tok[tok.len() - 1] != '"' {
            strip_quotes_exec(&tok)
        } else {
            tok
        };
        let mut joined: Vec<char> = Vec::new();
        let mut i: usize = 0;
        while i < acc.len()
            invariant
                i <= acc@.len(),
                joined@ == acc@.take(i as int),
                acc@ == st0.2,
            decreases acc@.len() - i,
        {
            joined.push(acc[i]);
            i = i + 1;
            proof {
                assert(joined@ =~= acc@.take(i as int));
            }
        }
        joined.push(' ');
        let mut j: usize = 0;
        while j < t.len()
            invariant
                j <= t@.len(),
                joined@ == st0.2 + seq![' '] + t@.take(j as int),
            decreases t@.len() - j,
        {
            joined.push(t[j]);
            j = j + 1;
            proof {
                assert(joined@ =~= st0.2 + seq![' '] + t@.take(j as int));
            }
        }
        proof {
            assert(st0.2.take(st0.2.len() as int) =~= st0.2);
            assert(t@.take(t@.len() as int) =~= t@);
            assert(joined@ =~= st0.2 + seq![' '] + t@);
        }
        if t.len() > 0 && t[t.len() - 1] == '"' {
            let ghost pre = views(out@);
            out.push(joined);
            *quoted = false;
            *acc = Vec::new();
            proof {
                assert(views(out@) =~= pre.push(out@.last()@));
            }
        } else {
            *acc = joined;
        }
    }
}

fn join_with_spaces(parts: &Vec<Vec<char>>) -> (r: Vec<char>)
    ensures
        r@ == join_spaces(views(parts@)),
{
    let mut r: Vec<char> = Vec::new();
    let mut i: usize = 0;
    while i < parts.len()
        invariant
            i <= parts@.len(),
            r@ == join_spaces(views(parts@.take(i as int))),
        decreases parts@.len() - i,
    {
        if i > 0 {
            r.push(' ');
        }
        let p = &parts[i];
        let mut j: usize = 0;
        let ghost base = r@;
        while j < p.len()
            invariant
                j <= p@.len(),
                r@ == base + p@.take(j as int),
            decreases p@.len() - j,
        {
            r.push(p[j]);
            j = j + 1;
            proof {
                assert(r@ =~= base + p@.take(j as int));
            }
        }
        proof {
            assert(p@.take(p@.len() as int) =~= p@);
            let w = views(parts@.take(i + 1));
            assert(w.drop_last() =~= views(parts@.take(i as int)));
            assert(w.last() == parts@[i as int]@);
            if i > 0 {
                assert(r@ =~= join_spaces(w));
            } else {
                assert(w.len() == 1);
                assert(r@ =~= join_spaces(w));
            }
        }
        i = i + 1;
    }
    proof {
        assert(parts@.take(parts@.len() as int) =~= parts@);
    }
    r
}

/// Sanitizes free-text search input into a safe search-engine query, exactly
/// as `spec_reformat` states: disallowed characters become spaces, quoted
/// phrases are preserved, stray quotes are stripped, tokens holding `-` are
/// quoted, and an unterminated quote is closed.
pub fn reformat_fts_query(query: &str) -> (r: String)
    ensures
        r@ == spec_reformat(query@),
{
    let chars = chars_of(query);
    let mut out: Vec<Vec<char>> = Vec::new();
    let mut quoted: bool = false;
    let mut acc: Vec<char> = Vec::new();
    let mut cur: Vec<char> = Vec::new();
    let ghost init: QueryState = (Seq::empty(), false, Seq::empty());
    proof {
        assert(views(out@) =~= Seq::<Seq<char>>::empty());
    }
    let mut i: usize = 0;
    while i < chars.len()
        invariant
            i <= chars@.len(),
            chars@ == query@,
            init == (Seq::<Seq<char>>::empty(), false, Seq::<char>::empty()),
            scan_chars(init, Seq::empty(), chars@.take(i as int)) == (
                (views(out@), quoted, acc@),
                cur@,
            ),
        decreases chars@.len() - i,
    {
        let c = chars[i];
        proof {
            assert(chars@.take(i + 1) =~= chars@.take(i as int).push(c));
            lemma_scan_snoc(init, Seq::empty(), chars@.take(i as int), c);
        }
        let k = if char_is_alphanumeric(c) || c == '-' || c == '_' || c == '*' || c == '"' {
            c
        } else {
            ' '
        };
        if k == ' ' {
            if cur.len() > 0 {
                let tok = cur;
                cur = Vec::new();
                push_token(&mut out, &mut quoted, &mut acc, tok);
            }
        } else {
            cur.push(k);
        }
        i = i + 1;
    }
    proof {
        assert(chars@.take(chars@.len() as int) =~= chars@);
    }
    if cur.len() > 0 {
        let tok = cur;
        cur = Vec::new();
        push_token(&mut out, &mut quoted, &mut acc, tok);
    }
    if quoted {
        acc.push('"');
        let closing = acc;
        acc = Vec::new();
        let ghost pre = views(out@);
        out.push(closing);
        proof {
            assert(views(out@) =~= pre.push(out@.last()@));
        }
    }
    let joined = join_with_spaces(&out);
    string_from_chars(&joined)
}

} // verus!
