//! Small helpers shared by the renderers.

use vstd::prelude::*;
use crate::text::{chars_of, push_char};

verus! {

/// `s` with every `"` preceded by a backslash.
pub open spec fn escape_quotes(s: Seq<char>) -> Seq<char>
    decreases s.len(),
{
    if s.len() == 0 {
        Seq::empty()
    } else {
        let head: Seq<char> = if s[0] == '"' { seq!['\\', '"'] } else { seq![s[0]] };
        head + escape_quotes(s.drop_first())
    }
}

/// The value between double quotes, with its own double quotes escaped.
pub open spec fn wrapped(s: Seq<char>) -> Seq<char> {
    seq!['"'] + escape_quotes(s) + seq!['"']
}

/// Escaping a concatenation escapes each part.
pub proof fn lemma_escape_quotes_push(s: Seq<char>, c: char)
    ensures
        escape_quotes(s.push(c)) == escape_quotes(s) + escape_quotes(seq![c]),
    decreases s.len(),
{
    if s.len() == 0 {
        assert(s.push(c) =~= seq![c]);
        assert(escape_quotes(s) =~= Seq::<char>::empty());
        assert(escape_quotes(s) + escape_quotes(seq![c]) =~= escape_quotes(seq![c]));
    } else {
        assert(s.push(c).drop_first() =~= s.drop_first().push(c));
        lemma_escape_quotes_push(s.drop_first(), c);
        assert(escape_quotes(seq![c]).len() >= 0);
        let h: Seq<char> = if s[0] == '"' { seq!['\\', '"'] } else { seq![s[0]] };
        assert(escape_quotes(s.push(c)) == h + escape_quotes(s.drop_first().push(c)));
        assert(h + (escape_quotes(s.drop_first()) + escape_quotes(seq![c])) =~= (h
            + escape_quotes(s.drop_first())) + escape_quotes(seq![c]));
    }
}

/// Wraps a string in double quotes and escapes the double quotes inside it.
pub fn wrap_value(value: &str) -> (r: String)
    ensures
        r@ == wrapped(value@),
{
    let v = chars_of(value);
    let mut r = String::new();
    push_char(&mut r, '"');
    let mut i: usize = 0;
    while i < v.len()
        invariant
            i <= v@.len(),
            v@ == value@,
            r@ == seq!['"'] + escape_quotes(v@.subrange(0, i as int)),
        decreases v@.len() - i,
    {
        proof {
            assert(v@.subrange(0, i + 1) =~= v@.subrange(0, i as int).push(v@[i as int]));
            lemma_escape_quotes_push(v@.subrange(0, i as int), v@[i as int]);
            let one = seq![v@[i as int]];
            assert(one.drop_first() =~= Seq::<char>::empty());
            assert(escape_quotes(one.drop_first()) =~= Seq::<char>::empty());
        }
        if v[i] == '"' {
            push_char(&mut r, '\\');
            push_char(&mut r, '"');
        } else {
            push_char(&mut r, v[i]);
        }
        i = i + 1;
    }
    push_char(&mut r, '"');
    assert(v@.subrange(0, v@.len() as int) =~= v@);
    r
}

} // verus!
