//! Encoding of a value so that it fits on one line of a workflow command.

use vstd::prelude::*;

verus! {

/// `s` with every occurrence of the character `from` replaced by `to`.
pub open spec fn replaced(s: Seq<char>, from: char, to: Seq<char>) -> Seq<char>
    decreases s.len(),
{
    if s.len() == 0 {
        Seq::empty()
    } else {
        replaced(s.drop_last(), from, to) + (if s.last() == from {
            to
        } else {
            seq![s.last()]
        })
    }
}

/// Whether `c` is one of the three characters that the encoding rewrites.
pub open spec fn is_special(c: char) -> bool {
    c == '%' || c == '\r' || c == '\n'
}

/// The encoding of a single character.
pub open spec fn escaped_char(c: char) -> Seq<char> {
    if c == '%' {
        seq!['%', '2', '5']
    } else if c == '\r' {
        seq!['%', '0', 'D']
    } else if c == '\n' {
        seq!['%', '0', 'A']
    } else {
        seq![c]
    }
}

/// The encoding of a string: each character encoded on its own, in order.
pub open spec fn escaped(s: Seq<char>) -> Seq<char>
    decreases s.len(),
{
    if s.len() == 0 {
        Seq::empty()
    } else {
        escaped(s.drop_last()) + escaped_char(s.last())
    }
}

/// The three passes that `github_escape` runs, one after the other.
pub open spec fn three_passes(s: Seq<char>) -> Seq<char> {
    replaced(
        replaced(replaced(s, '%', seq!['%', '2', '5']), '\r', seq!['%', '0', 'D']),
        '\n',
        seq!['%', '0', 'A'],
    )
}

/// Calls `str::replace` with a character as the pattern. Trusted: the result
/// is the input with each occurrence of `from` replaced by `to` and every
/// other character kept in place.
#[verifier::external_body]
fn replace_char(s: &str, from: char, to: &str) -> (res: String)
    ensures
        res@ == replaced(s@, from, to@),
{
    s.replace(from, to)
}

/// Replacing distributes over concatenation.
pub proof fn lemma_replaced_concat(a: Seq<char>, b: Seq<char>, from: char, to: Seq<char>)
    ensures
        replaced(a + b, from, to) == replaced(a, from, to) + replaced(b, from, to),
    decreases b.len(),
{
    if b.len() == 0 {
        assert(a + b =~= a);
        assert(replaced(a, from, to) + replaced(b, from, to) =~= replaced(a, from, to));
    } else {
        let tail = if b.last() == from {
            to
        } else {
            seq![b.last()]
        };
        assert((a + b).drop_last() =~= a + b.drop_last());
        assert((a + b).last() == b.last());
        lemma_replaced_concat(a, b.drop_last(), from, to);
        assert(replaced(a, from, to) + replaced(b.drop_last(), from, to) + tail =~= replaced(
            a,
            from,
            to,
        ) + (replaced(b.drop_last(), from, to) + tail));
    }
}

/// A string without the character `from` is left as it is.
pub proof fn lemma_replaced_absent(s: Seq<char>, from: char, to: Seq<char>)
    requires
        forall|i: int| 0 <= i < s.len() ==> s[i] != from,
    ensures
        replaced(s, from, to) == s,
    decreases s.len(),
{
    if s.len() == 0 {
        assert(s =~= Seq::<char>::empty());
    } else {
        lemma_replaced_absent(s.drop_last(), from, to);
        assert(s.drop_last() + seq![s.last()] =~= s);
    }
}

/// The three sequential passes encode each character of the input exactly
/// once: a percent sign that a later pass writes is never read again by the
/// pass for the percent sign, which ran first.
pub proof fn lemma_three_passes(s: Seq<char>)
    ensures
        three_passes(s) == escaped(s),
    decreases s.len(),
{
    let p = seq!['%', '2', '5'];
    let r = seq!['%', '0', 'D'];
    let n = seq!['%', '0', 'A'];
    if s.len() == 0 {
        assert(replaced(s, '%', p) =~= Seq::<char>::empty());
    } else {
        let c = s.last();
        let init = s.drop_last();
        lemma_three_passes(init);
        let one = if c == '%' {
            p
        } else {
            seq![c]
        };
        lemma_replaced_concat(replaced(init, '%', p), one, '\r', r);
        lemma_single_pass(one, '\r', r);
        let two = replaced(one, '\r', r);
        lemma_replaced_concat(replaced(replaced(init, '%', p), '\r', r), two, '\n', n);
        lemma_single_pass(two, '\n', n);
        lemma_single_pass(p, '\r', r);
        lemma_single_pass(r, '\n', n);
        lemma_single_pass(p, '\n', n);
        lemma_single_pass(seq![c], '\r', r);
        lemma_single_pass(seq![c], '\n', n);
        assert(replaced(two, '\n', n) == escaped_char(c));
    }
}

/// One pass over a string of one or three characters, written out.
proof fn lemma_single_pass(s: Seq<char>, from: char, to: Seq<char>)
    requires
        s.len() == 1 || s.len() == 3,
    ensures
        s.len() == 1 ==> replaced(s, from, to) == (if s[0] == from {
            to
        } else {
            s
        }),
        s.len() == 3 && s[0] != from && s[1] != from && s[2] != from ==> replaced(s, from, to)
            == s,
{
    if s.len() == 1 {
        assert(s.drop_last() =~= Seq::<char>::empty());
        assert(replaced(s.drop_last(), from, to) =~= Seq::<char>::empty());
        assert(seq![s.last()] =~= s);
        assert(Seq::<char>::empty() + to =~= to);
        assert(Seq::<char>::empty() + s =~= s);
    } else if s[0] != from && s[1] != from && s[2] != from {
        lemma_replaced_absent(s, from, to);
    }
}

/// An encoded value never holds a carriage return or a line feed, so it
/// stays on the line that it is written to.
pub proof fn lemma_escaped_single_line(s: Seq<char>)
    ensures
        forall|i: int| 0 <= i < escaped(s).len() ==> escaped(s)[i] != '\r' && escaped(s)[i] != '\n',
    decreases s.len(),
{
    if s.len() > 0 {
        let init = escaped(s.drop_last());
        let tail = escaped_char(s.last());
        lemma_escaped_single_line(s.drop_last());
        assert forall|i: int| 0 <= i < escaped(s).len() implies escaped(s)[i] != '\r' && escaped(
            s,
        )[i] != '\n' by {
            if i < init.len() {
                assert(escaped(s)[i] == init[i]);
            } else {
                assert(escaped(s)[i] == tail[i - init.len()]);
            }
        }
    }
}

/// A value without `%`, carriage return and line feed is its own encoding.
pub proof fn lemma_escaped_plain(s: Seq<char>)
    requires
        forall|i: int| 0 <= i < s.len() ==> !is_special(s[i]),
    ensures
        escaped(s) == s,
    decreases s.len(),
{
    if s.len() == 0 {
        assert(s =~= Seq::<char>::empty());
    } else {
        lemma_escaped_plain(s.drop_last());
        assert(s.drop_last() + seq![s.last()] =~= s);
    }
}

/// The encoding is never shorter than the value, and as long only where no
/// character of the value was rewritten.
pub proof fn lemma_escaped_len(s: Seq<char>)
    ensures
        escaped(s).len() >= s.len(),
        escaped(s).len() == s.len() <==> (forall|i: int| 0 <= i < s.len() ==> !is_special(s[i])),
    decreases s.len(),
{
    if s.len() > 0 {
        let init = s.drop_last();
        lemma_escaped_len(init);
        if forall|i: int| 0 <= i < s.len() ==> !is_special(s[i]) {
            assert forall|i: int| 0 <= i < init.len() implies !is_special(init[i]) by {
                assert(init[i] == s[i]);
            }
        } else {
            let i = choose|i: int| 0 <= i < s.len() && is_special(s[i]);
            if i < init.len() {
                assert(init[i] == s[i]);
            }
        }
    }
}

/// Every percent sign of an encoded value starts a code of three characters.
pub proof fn lemma_escaped_codes(s: Seq<char>)
    ensures
        forall|i: int|
            0 <= i < escaped(s).len() && escaped(s)[i] == '%' ==> i + 2 < escaped(s).len(),
    decreases s.len(),
{
    if s.len() > 0 {
        let init = escaped(s.drop_last());
        let tail = escaped_char(s.last());
        lemma_escaped_codes(s.drop_last());
        assert forall|i: int| 0 <= i < escaped(s).len() && escaped(s)[i] == '%' implies i + 2
            < escaped(s).len() by {
            if i < init.len() {
                assert(escaped(s)[i] == init[i]);
            } else {
                assert(escaped(s)[i] == tail[i - init.len()]);
            }
        }
    }
}

/// An encoded value holds a percent sign exactly where the value holds one
/// of the three rewritten characters.
pub proof fn lemma_escaped_marks(s: Seq<char>)
    ensures
        (exists|i: int| 0 <= i < escaped(s).len() && escaped(s)[i] == '%') <==> (exists|j: int|
            0 <= j < s.len() && is_special(s[j])),
    decreases s.len(),
{
    if s.len() > 0 {
        let init = s.drop_last();
        let c = s.last();
        lemma_escaped_marks(init);
        let e = escaped(s);
        let ei = escaped(init);
        if exists|i: int| 0 <= i < e.len() && e[i] == '%' {
            let i = choose|i: int| 0 <= i < e.len() && e[i] == '%';
            if i < ei.len() {
                assert(ei[i] == '%');
                let j = choose|j: int| 0 <= j < init.len() && is_special(init[j]);
                assert(is_special(s[j]));
            } else {
                assert(escaped_char(c)[i - ei.len()] == '%');
                assert(is_special(s[s.len() - 1]));
            }
        }
        if exists|j: int| 0 <= j < s.len() && is_special(s[j]) {
            let j = choose|j: int| 0 <= j < s.len() && is_special(s[j]);
            if j < init.len() {
                assert(is_special(init[j]));
                let i = choose|i: int| 0 <= i < ei.len() && ei[i] == '%';
                assert(e[i] == '%');
            } else {
                assert(e[ei.len() as int] == escaped_char(c)[0]);
            }
        }
    }
}

/// The encoding is unambiguous: two values with one encoding are one value.
pub proof fn lemma_escaped_injective(a: Seq<char>, b: Seq<char>)
    requires
        escaped(a) == escaped(b),
    ensures
        a == b,
    decreases a.len() + b.len(),
{
    if a.len() == 0 || b.len() == 0 {
        lemma_escaped_len(a);
        lemma_escaped_len(b);
        assert(a =~= b);
    } else {
        let x = a.last();
        let y = b.last();
        let ea = escaped(a.drop_last());
        let eb = escaped(b.drop_last());
        let e = escaped(a);
        lemma_escaped_codes(a.drop_last());
        lemma_escaped_codes(b.drop_last());
        assert(e == ea + escaped_char(x));
        assert(e == eb + escaped_char(y));
        if is_special(x) && !is_special(y) {
            assert(e[e.len() - 3] == '%');
            assert(eb[e.len() - 3] == '%');
        } else if !is_special(x) && is_special(y) {
            assert(e[e.len() - 3] == '%');
            assert(ea[e.len() - 3] == '%');
        } else {
            assert(e[e.len() - 1] == escaped_char(x).last());
            assert(e[e.len() - 1] == escaped_char(y).last());
            assert(x == y);
            assert(ea =~= e.subrange(0, e.len() - escaped_char(x).len()));
            assert(eb =~= e.subrange(0, e.len() - escaped_char(y).len()));
            lemma_escaped_injective(a.drop_last(), b.drop_last());
            assert(a =~= a.drop_last().push(x));
            assert(b =~= b.drop_last().push(y));
        }
    }
}

/// Encoding is not idempotent: a second pass changes the result again
/// exactly when the first one changed the value.
pub proof fn lemma_escaped_twice(s: Seq<char>)
    ensures
        escaped(escaped(s)) == escaped(s) <==> escaped(s) == s,
{
    lemma_escaped_len(s);
    lemma_escaped_len(escaped(s));
    lemma_escaped_marks(s);
    if escaped(s) == s {
        lemma_escaped_plain_converse(s);
        lemma_escaped_plain(s);
    } else {
        if forall|i: int| 0 <= i < s.len() ==> !is_special(s[i]) {
            lemma_escaped_plain(s);
        }
        let j = choose|j: int| 0 <= j < s.len() && is_special(s[j]);
        let i = choose|i: int| 0 <= i < escaped(s).len() && escaped(s)[i] == '%';
        assert(is_special(escaped(s)[i]));
    }
}

/// A value that is its own encoding holds none of the rewritten characters.
pub proof fn lemma_escaped_plain_converse(s: Seq<char>)
    requires
        escaped(s) == s,
    ensures
        forall|i: int| 0 <= i < s.len() ==> !is_special(s[i]),
{
    lemma_escaped_len(s);
}

/// Encodes a value for a workflow command: `%` becomes `%25`, a carriage
/// return `%0D` and a line feed `%0A`, in three passes in that order.
pub fn github_escape(secret_value: &str) -> (res: String)
    ensures
        res@ == escaped(secret_value@),
        res@ == three_passes(secret_value@),
{
    let percent = replace_char(secret_value, '%', "%25");
    let carriage = replace_char(percent.as_str(), '\r', "%0D");
    let feed = replace_char(carriage.as_str(), '\n', "%0A");
    proof {
        reveal_strlit("%25");
        reveal_strlit("%0D");
        reveal_strlit("%0A");
        assert("%25"@ =~= seq!['%', '2', '5']);
        assert("%0D"@ =~= seq!['%', '0', 'D']);
        assert("%0A"@ =~= seq!['%', '0', 'A']);
        lemma_three_passes(secret_value@);
    }
    feed
}

} // verus!
