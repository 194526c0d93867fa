//! Paths, which are the same where they lead the same way.

use crate::text::{self, same, split, starts_with};
use vstd::prelude::*;
use vstd::string::*;

verus! {

/// The steps among the pieces that slashes separate: an empty piece is none, nor is `.` but at
/// the beginning.
pub open spec fn steps(pieces: Seq<Seq<char>>) -> Seq<Seq<char>>
    decreases pieces.len(),
{
    if pieces.len() == 0 {
        Seq::empty()
    } else {
        let p = pieces.last();
        let rest = steps(pieces.drop_last());
        if p.len() == 0 || p == "."@ && pieces.len() > 1 {
            rest
        } else {
            rest.push(p)
        }
    }
}

/// Whether a path starts at the root.
pub open spec fn is_rooted(path: Seq<char>) -> bool {
    text::begins(path, "/"@)
}

/// Whether two paths are the same: they start at one place and take the same steps. Slashes at
/// the end and slashes that stand together make no difference.
pub open spec fn same_way(a: Seq<char>, b: Seq<char>) -> bool {
    is_rooted(a) == is_rooted(b) && steps(text::pieces(a, '/')) == steps(text::pieces(b, '/'))
}

fn steps_of(path: &str) -> (r: Vec<String>)
    ensures
        text::views(r@) == steps(text::pieces(path@, '/')),
{
    let list = split(path, '/');
    let ghost all = text::views(list@);
    let mut r: Vec<String> = Vec::new();
    let mut i: usize = 0;
    assert(text::views(r@) =~= steps(all.take(0)));
    while i < list.len()
        invariant
            i <= list.len(),
            all == text::views(list@),
            text::views(r@) == steps(all.take(i as int)),
        decreases list.len() - i,
    {
        proof {
            assert(all.take(i + 1).drop_last() =~= all.take(i as int));
            assert(all.take(i + 1).last() == list@[i as int]@);
        }
        if !list[i].as_str().is_empty() && !(same(list[i].as_str(), ".") && i > 0) {
            let ghost before = r@;
            let p = list[i].clone();
            r.push(p);
            assert(text::views(r@) =~= text::views(before).push(p@));
        }
        i = i + 1;
    }
    assert(all.take(all.len() as int) =~= all);
    r
}

/// Whether two paths are the same.
pub fn same_path(a: &str, b: &str) -> (r: bool)
    ensures
        r == same_way(a@, b@),
{
    if starts_with(a, "/") != starts_with(b, "/") {
        return false;
    }
    let s = steps_of(a);
    let t = steps_of(b);
    let ghost x = text::views(s@);
    let ghost y = text::views(t@);
    if s.len() != t.len() {
        assert(x.len() != y.len());
        return false;
    }
    let mut i: usize = 0;
    while i < s.len()
        invariant
            i <= s.len() == t.len(),
            x == text::views(s@),
            y == text::views(t@),
            x == steps(text::pieces(a@, '/')),
            y == steps(text::pieces(b@, '/')),
            forall|k: int| 0 <= k < i ==> #[trigger] x[k] == y[k],
        decreases s.len() - i,
    {
        if !same(s[i].as_str(), t[i].as_str()) {
            assert(x[i as int] != y[i as int]);
            return false;
        }
        i = i + 1;
    }
    assert(x =~= y);
    true
}

/// Being the same is an equivalence of paths.
pub proof fn same_way_is_an_equivalence(a: Seq<char>, b: Seq<char>, c: Seq<char>)
    ensures
        same_way(a, a),
        same_way(a, b) ==> same_way(b, a),
        same_way(a, b) && same_way(b, c) ==> same_way(a, c),
{
}

/// Slashes that stand together count as one, and a step to where one is makes no difference.
pub proof fn idle_steps_make_no_difference(a: Seq<char>, m: Seq<char>, b: Seq<char>)
    requires
        m == ""@ || m == "."@,
    ensures
        same_way(a + "/"@ + m + "/"@ + b, a + "/"@ + b),
{
    reveal_strlit("");
    reveal_strlit("/");
    reveal_strlit(".");
    let rest = m + "/"@ + b;
    assert(a + "/"@ + m + "/"@ + b =~= a + "/"@ + rest);
    text::lemma_pieces_concat(a, '/', rest);
    text::lemma_pieces_concat(m, '/', b);
    text::lemma_pieces_concat(a, '/', b);
    text::lemma_one_piece(m, '/');
    let x = text::pieces(a, '/');
    let y = text::pieces(b, '/');
    assert("/"@ =~= seq!['/']);
    assert(x + (seq![m] + y) =~= x + seq![m] + y);
    lemma_idle_step(x, m, y);
    let long = a + "/"@ + m + "/"@ + b;
    let short = a + "/"@ + b;
    assert(long[0] == short[0]);
    assert(text::begins(long, "/"@) == (long[0] == '/')) by {
        assert(long.subrange(0, 1) =~= seq![long[0]]);
        assert(long.subrange(0, 1)[0] == long[0]);
    }
    assert(text::begins(short, "/"@) == (short[0] == '/')) by {
        assert(short.subrange(0, 1) =~= seq![short[0]]);
        assert(short.subrange(0, 1)[0] == short[0]);
    }
}

/// A slash at the end makes no difference.
pub proof fn slash_at_the_end_makes_no_difference(path: Seq<char>)
    requires
        path.len() > 0,
    ensures
        same_way(path + "/"@, path),
{
    reveal_strlit("/");
    let none = Seq::<char>::empty();
    text::lemma_pieces_concat(path, '/', none);
    text::lemma_one_piece(none, '/');
    assert("/"@ =~= seq!['/']);
    assert(path + "/"@ =~= path + seq!['/'] + none);
    let x = text::pieces(path, '/');
    assert((x + seq![none]).drop_last() =~= x);
    let long = path + "/"@;
    assert(text::begins(long, "/"@) == (long[0] == '/')) by {
        assert(long.subrange(0, 1) =~= seq![long[0]]);
        assert(long.subrange(0, 1)[0] == long[0]);
    }
    assert(text::begins(path, "/"@) == (path[0] == '/')) by {
        assert(path.subrange(0, 1) =~= seq![path[0]]);
        assert(path.subrange(0, 1)[0] == path[0]);
    }
}

proof fn lemma_idle_step(x: Seq<Seq<char>>, m: Seq<char>, y: Seq<Seq<char>>)
    requires
        x.len() > 0,
        m.len() == 0 || m == "."@,
    ensures
        steps(x + seq![m] + y) == steps(x + y),
    decreases y.len(),
{
    if y.len() == 0 {
        assert((x + seq![m] + y).drop_last() =~= x);
        assert(x + y =~= x);
    } else {
        lemma_idle_step(x, m, y.drop_last());
        assert((x + seq![m] + y).drop_last() =~= x + seq![m] + y.drop_last());
        assert((x + y).drop_last() =~= x + y.drop_last());
    }
}

proof fn lemma_busy_steps(pieces: Seq<Seq<char>>)
    requires
        forall|i: int|
            0 <= i < pieces.len() ==> (#[trigger] pieces[i]).len() > 0 && pieces[i] != "."@,
    ensures
        steps(pieces) == pieces,
    decreases pieces.len(),
{
    if pieces.len() > 0 {
        let front = pieces.drop_last();
        assert forall|i: int| 0 <= i < front.len() implies (#[trigger] front[i]).len() > 0
            && front[i] != "."@ by {
            assert(front[i] == pieces[i]);
        }
        lemma_busy_steps(front);
        assert(pieces[pieces.len() - 1] == pieces.last());
        assert(front.push(pieces.last()) =~= pieces);
    }
}

/// Whether no step of a path is empty or leads nowhere.
pub open spec fn is_plain(path: Seq<char>) -> bool {
    forall|i: int|
        0 <= i < text::pieces(path, '/').len() ==> (#[trigger] text::pieces(path, '/')[i]).len() > 0
            && text::pieces(path, '/')[i] != "."@
}

/// Paths that are written plainly lead the same way only where they are the same; a path from the
/// root never leads the way of one that is not.
pub proof fn different_paths_lead_different_ways(a: Seq<char>, b: Seq<char>)
    ensures
        is_plain(a) && is_plain(b) ==> (same_way(a, b) <==> a == b),
        text::begins(a, "/"@) && !text::begins(b, "/"@) ==> !same_way(a, b),
{
    if is_plain(a) && is_plain(b) {
        lemma_busy_steps(text::pieces(a, '/'));
        lemma_busy_steps(text::pieces(b, '/'));
        text::pieces_join_to_the_whole(a, '/');
        text::pieces_join_to_the_whole(b, '/');
    }
}

} // verus!
