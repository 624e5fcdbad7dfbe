//! Line segmentation: splitting raw text into lines that keep their
//! terminators, plus small helpers for building strings back up.

use vstd::prelude::*;

verus! {

/// The lines of `rest`, given that the characters `cur` of the current,
/// still unterminated line have already been read.  Each `'\n'` closes a
/// line (the terminator stays part of the line); a final segment without a
/// terminator is a line of its own, and empty input yields no lines.
pub open spec fn lines_of_rec(rest: Seq<char>, cur: Seq<char>) -> Seq<Seq<char>>
    decreases rest.len(),
{
    if rest.len() == 0 {
        if cur.len() == 0 {
            Seq::empty()
        } else {
            seq![cur]
        }
    } else if rest[0] == '\n' {
        seq![cur.push('\n')] + lines_of_rec(rest.skip(1), Seq::empty())
    } else {
        lines_of_rec(rest.skip(1), cur.push(rest[0]))
    }
}

/// The ordered sequence of lines of `s`, terminators retained.
pub open spec fn lines_of(s: Seq<char>) -> Seq<Seq<char>> {
    lines_of_rec(s, Seq::empty())
}

/// Concatenation of a sequence of lines back into one character sequence.
pub open spec fn cat(ls: Seq<Seq<char>>) -> Seq<char>
    decreases ls.len(),
{
    if ls.len() == 0 {
        Seq::empty()
    } else {
        ls[0] + cat(ls.skip(1))
    }
}

proof fn lemma_cat_lines_of_rec(rest: Seq<char>, cur: Seq<char>)
    ensures
        cat(lines_of_rec(rest, cur)) == cur + rest,
    decreases rest.len(),
{
    if rest.len() == 0 {
        if cur.len() == 0 {
            assert(cat(lines_of_rec(rest, cur)) =~= cur + rest);
        } else {
            let ls = seq![cur];
            assert(ls.skip(1) =~= Seq::<Seq<char>>::empty());
            assert(cat(Seq::<Seq<char>>::empty()) =~= Seq::<char>::empty());
            assert(cat(ls) =~= cur + rest);
        }
    } else if rest[0] == '\n' {
        lemma_cat_lines_of_rec(rest.skip(1), Seq::empty());
        let ls = seq![cur.push('\n')] + lines_of_rec(rest.skip(1), Seq::empty());
        assert(ls.skip(1) =~= lines_of_rec(rest.skip(1), Seq::empty()));
        assert(Seq::empty() + rest.skip(1) =~= rest.skip(1));
        assert(cur.push('\n') + rest.skip(1) =~= cur + rest);
    } else {
        lemma_cat_lines_of_rec(rest.skip(1), cur.push(rest[0]));
        assert(cur.push(rest[0]) + rest.skip(1) =~= cur + rest);
    }
}

/// Concatenating the lines of `s` gives back `s` exactly.
pub proof fn lemma_cat_lines_of(s: Seq<char>)
    ensures
        cat(lines_of(s)) == s,
{
    lemma_cat_lines_of_rec(s, Seq::empty());
    assert(Seq::empty() + s =~= s);
}

proof fn lemma_lines_of_rec_wf(rest: Seq<char>, cur: Seq<char>)
    requires
        forall|j: int| 0 <= j < cur.len() ==> cur[j] != '\n',
    ensures
        ({
            let ls = lines_of_rec(rest, cur);
            &&& forall|i: int| 0 <= i < ls.len() ==> (#[trigger] ls[i]).len() > 0
            &&& forall|i: int, j: int|
                0 <= i < ls.len() && 0 <= j < ls[i].len() - 1 ==> #[trigger] ls[i][j] != '\n'
            &&& forall|i: int| 0 <= i < ls.len() - 1 ==> (#[trigger] ls[i]).last() == '\n'
        }),
    decreases rest.len(),
{
    let ls = lines_of_rec(rest, cur);
    if rest.len() == 0 {
        if cur.len() > 0 {
            assert(ls == seq![cur]);
            assert(ls[0] == cur);
            assert forall|i: int, j: int|
                0 <= i < ls.len() && 0 <= j < ls[i].len() - 1 implies #[trigger] ls[i][j]
                != '\n' by {
                assert(ls[i] == cur);
            }
        }
    } else if rest[0] == '\n' {
        lemma_lines_of_rec_wf(rest.skip(1), Seq::empty());
        let head = cur.push('\n');
        let tail = lines_of_rec(rest.skip(1), Seq::empty());
        assert(ls == seq![head] + tail);
        assert(ls[0] == head);
        assert forall|i: int| 0 <= i < ls.len() implies (#[trigger] ls[i]).len() > 0 by {
            if i > 0 {
                assert(ls[i] == tail[i - 1]);
            }
        }
        assert forall|i: int, j: int|
            0 <= i < ls.len() && 0 <= j < ls[i].len() - 1 implies #[trigger] ls[i][j] != '\n' by {
            if i > 0 {
                assert(ls[i] == tail[i - 1]);
            } else {
                assert(head[j] == cur[j]);
            }
        }
        assert forall|i: int| 0 <= i < ls.len() - 1 implies (#[trigger] ls[i]).last() == '\n' by {
            if i > 0 {
                assert(ls[i] == tail[i - 1]);
            }
        }
    } else {
        assert forall|j: int| 0 <= j < cur.push(rest[0]).len() implies cur.push(rest[0])[j]
            != '\n' by {
            if j < cur.len() {
                assert(cur.push(rest[0])[j] == cur[j]);
            }
        }
        lemma_lines_of_rec_wf(rest.skip(1), cur.push(rest[0]));
        let tail = lines_of_rec(rest.skip(1), cur.push(rest[0]));
        assert(ls == tail);
        assert forall|i: int| 0 <= i < ls.len() implies (#[trigger] ls[i]).len() > 0 by {
            assert(ls[i] == tail[i]);
        }
        assert forall|i: int, j: int|
            0 <= i < ls.len() && 0 <= j < ls[i].len() - 1 implies #[trigger] ls[i][j] != '\n' by {
            assert(ls[i] == tail[i]);
            assert(tail[i][j] != '\n');
        }
        assert forall|i: int| 0 <= i < ls.len() - 1 implies (#[trigger] ls[i]).last() == '\n' by {
            assert(ls[i] == tail[i]);
        }
    }
}

/// The lines of a text are well formed: none is empty, a terminator stands
/// only at the end of a line, and every line but possibly the last ends
/// with one.
pub proof fn lemma_lines_wf(s: Seq<char>)
    ensures
        ({
            let ls = lines_of(s);
            &&& forall|i: int| 0 <= i < ls.len() ==> (#[trigger] ls[i]).len() > 0
            &&& forall|i: int, j: int|
                0 <= i < ls.len() && 0 <= j < ls[i].len() - 1 ==> #[trigger] ls[i][j] != '\n'
            &&& forall|i: int| 0 <= i < ls.len() - 1 ==> (#[trigger] ls[i]).last() == '\n'
        }),
{
    lemma_lines_of_rec_wf(s, Seq::empty());
}

proof fn lemma_lines_of_rec_count(rest: Seq<char>, cur: Seq<char>)
    ensures
        lines_of_rec(rest, cur).len() <= rest.len() + (if cur.len() > 0 {
            1int
        } else {
            0int
        }),
    decreases rest.len(),
{
    if rest.len() == 0 {
    } else if rest[0] == '\n' {
        lemma_lines_of_rec_count(rest.skip(1), Seq::empty());
    } else {
        lemma_lines_of_rec_count(rest.skip(1), cur.push(rest[0]));
    }
}

/// A text never has more lines than characters.
pub proof fn lemma_lines_of_count(s: Seq<char>)
    ensures
        lines_of(s).len() <= s.len(),
{
    lemma_lines_of_rec_count(s, Seq::empty());
}

/// The view of a sequence of concrete lines.
pub open spec fn lines_view(ls: Seq<Vec<char>>) -> Seq<Seq<char>> {
    ls.map_values(|l: Vec<char>| l@)
}

/// The characters of a string, in order.
pub fn chars_of(s: &str) -> (r: Vec<char>)
    ensures
        r@ == s@,
{
    let mut r: Vec<char> = Vec::new();
    for c in it: s.chars()
        invariant
            it.seq() == s@,
            r@ =~= s@.take(it.index() as int),
    {
        r.push(c);
    }
    proof {
        assert(r@ =~= s@);
    }
    r
}

/// Splits `text` into its lines; each line keeps its terminator, and the
/// final line may lack one.
pub fn split_lines(text: &Vec<char>) -> (r: Vec<Vec<char>>)
    ensures
        lines_view(r@) == lines_of(text@),
{
    let ghost t = text@;
    let mut r: Vec<Vec<char>> = Vec::new();
    let mut cur: Vec<char> = Vec::new();
    let mut i: usize = 0;
    proof {
        assert(t.skip(0) =~= t);
        assert(lines_view(r@) + lines_of_rec(t, cur@) =~= lines_of_rec(t, cur@));
    }
    while i < text.len()
        invariant
            i <= text.len(),
            t == text@,
            lines_view(r@) + lines_of_rec(t.skip(i as int), cur@) == lines_of(t),
        decreases text.len() - i,
    {
        let c = text[i];
        proof {
            assert(t.skip(i as int)[0] == t[i as int]);
            assert(t.skip(i as int).skip(1) =~= t.skip(i as int + 1));
        }
        cur.push(c);
        if c == '\n' {
            let ghost r0 = r@;
            let ghost cur0 = cur@;
            r.push(cur);
            cur = Vec::new();
            proof {
                assert(lines_view(r@) =~= lines_view(r0).push(cur0));
                assert(lines_view(r0).push(cur0) + lines_of_rec(t.skip(i as int + 1), Seq::empty())
                    =~= lines_view(r0) + (seq![cur0] + lines_of_rec(t.skip(i as int + 1), Seq::empty())));
            }
        }
        i = i + 1;
    }
    proof {
        assert(t.skip(i as int) =~= Seq::<char>::empty());
    }
    if cur.len() > 0 {
        let ghost r0 = r@;
        let ghost cur0 = cur@;
        r.push(cur);
        proof {
            assert(lines_view(r@) =~= lines_view(r0).push(cur0));
            assert(lines_view(r0).push(cur0) =~= lines_view(r0) + seq![cur0]);
        }
    } else {
        proof {
            assert(lines_view(r@) + Seq::<Seq<char>>::empty() =~= lines_view(r@));
        }
    }
    r
}

/// Whether two lines hold the same characters.
pub fn line_eq(a: &Vec<char>, b: &Vec<char>) -> (r: bool)
    ensures
        r == (a@ == b@),
{
    if a.len() != b.len() {
        return false;
    }
    let mut i: usize = 0;
    while i < a.len()
        invariant
            i <= a.len(),
            a@.len() == b@.len(),
            forall|j: int| 0 <= j < i ==> a@[j] == b@[j],
        decreases a.len() - i,
    {
        if a[i] != b[i] {
            return false;
        }
        i = i + 1;
    }
    proof {
        assert(a@ =~= b@);
    }
    true
}

/// A copy of a line.
pub fn copy_chars(v: &Vec<char>) -> (r: Vec<char>)
    ensures
        r@ == v@,
{
    let mut r: Vec<char> = Vec::new();
    let mut i: usize = 0;
    while i < v.len()
        invariant
            i <= v.len(),
            r@ =~= v@.take(i as int),
        decreases v.len() - i,
    {
        r.push(v[i]);
        i = i + 1;
    }
    proof {
        assert(r@ =~= v@);
    }
    r
}

/// Relies on `String::push`: appends the character at the end of the string.
#[verifier::external_body]
pub(crate) fn push_char(s: &mut String, c: char)
    ensures
        final(s)@ == old(s)@.push(c),
{
    s.push(c);
}

/// Appends the characters of `v` to `s`.
pub fn append_chars(s: &mut String, v: &Vec<char>)
    ensures
        final(s)@ == old(s)@ + v@,
{
    let mut i: usize = 0;
    while i < v.len()
        invariant
            i <= v.len(),
            s@ =~= old(s)@ + v@.take(i as int),
        decreases v.len() - i,
    {
        push_char(s, v[i]);
        i = i + 1;
    }
    proof {
        assert(old(s)@ + v@.take(v@.len() as int) =~= old(s)@ + v@);
    }
}

} // verus!
