//! Quoting of identifiers and literals for the SQL statements the pipeline
//! hands to its storage engine.
use vstd::prelude::*;
use crate::text::{push_char, str_chars};

verus! {

/// Each occurrence of the quote character `q` in `s` doubled, every other
/// character kept as it is.
pub open spec fn doubled(s: Seq<char>, q: char) -> Seq<char>
    decreases s.len(),
{
    if s.len() == 0 {
        Seq::empty()
    } else if s[0] == q {
        seq![q, q] + doubled(s.drop_first(), q)
    } else {
        seq![s[0]] + doubled(s.drop_first(), q)
    }
}

pub proof fn lemma_doubled_append(a: Seq<char>, b: Seq<char>, q: char)
    ensures
        doubled(a + b, q) == doubled(a, q) + doubled(b, q),
    decreases a.len(),
{
    if a.len() == 0 {
        assert(a + b =~= b);
        assert(doubled(a, q) + doubled(b, q) =~= doubled(b, q));
    } else {
        assert((a + b).drop_first() =~= a.drop_first() + b);
        lemma_doubled_append(a.drop_first(), b, q);
        if a[0] == q {
            assert(doubled(a + b, q) =~= seq![q, q] + (doubled(a.drop_first(), q) + doubled(
                b,
                q,
            )));
            assert(doubled(a, q) + doubled(b, q) =~= seq![q, q] + (doubled(a.drop_first(), q)
                + doubled(b, q)));
        } else {
            assert(doubled(a + b, q) =~= seq![a[0]] + (doubled(a.drop_first(), q) + doubled(
                b,
                q,
            )));
            assert(doubled(a, q) + doubled(b, q) =~= seq![a[0]] + (doubled(a.drop_first(), q)
                + doubled(b, q)));
        }
    }
}

/// The text `s` wrapped in the quote character `q`, with every embedded `q`
/// doubled.
pub open spec fn quoted(s: Seq<char>, q: char) -> Seq<char> {
    seq![q] + doubled(s, q) + seq![q]
}

fn escape_quoted(s: &str, q: char) -> (r: String)
    ensures
        r@ == quoted(s@, q),
{
    let chars = str_chars(s);
    let mut r = String::new();
    push_char(&mut r, q);
    let n = chars.len();
    for i in 0..n
        invariant
            n == chars.len(),
            chars@ == s@,
            r@ == seq![q] + doubled(chars@.take(i as int), q),
    {
        let c = chars[i];
        proof {
            assert(chars@.take(i + 1) =~= chars@.take(i as int) + seq![chars@[i as int]]);
            lemma_doubled_append(chars@.take(i as int), seq![chars@[i as int]], q);
            assert(seq![chars@[i as int]].drop_first() =~= Seq::<char>::empty());
            assert(doubled(Seq::<char>::empty(), q) =~= Seq::<char>::empty());
            assert(doubled(seq![chars@[i as int]], q) =~= (if chars@[i as int] == q {
                seq![q, q]
            } else {
                seq![chars@[i as int]]
            }));
        }
        if c == q {
            push_char(&mut r, q);
            push_char(&mut r, q);
        } else {
            push_char(&mut r, c);
        }
        proof {
            assert(r@ =~= seq![q] + doubled(chars@.take(i + 1), q));
        }
    }
    proof {
        assert(chars@.take(n as int) =~= s@);
    }
    push_char(&mut r, q);
    proof {
        assert(r@ =~= quoted(s@, q));
    }
    r
}

/// Wraps a table or column name in double quotes, doubling any embedded
/// double quote, so that it can stand as an identifier in a SQL statement.
pub fn escape_sql_identifier(table_name: &str) -> (r: String)
    ensures
        r@ == quoted(table_name@, '"'),
{
    escape_quoted(table_name, '"')
}

/// Wraps a value in single quotes, doubling any embedded single quote, so
/// that it can stand as a string literal in a SQL statement.
pub fn escape_sql_literal(value: &str) -> (r: String)
    ensures
        r@ == quoted(value@, '\''),
{
    escape_quoted(value, '\'')
}

} // verus!
