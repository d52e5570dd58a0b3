//! Which origins may call the store from a browser.
use crate::models::Status;
use vstd::prelude::*;

verus! {

/// The character that separates the origins of a list.
pub const COMMA: char = ',';

/// The piece of `list` from `a` up to `b` is one entry of the list: it
/// reaches from the start or a comma to a comma or the end, and holds no
/// comma itself.
pub open spec fn is_entry(list: Seq<char>, a: int, b: int) -> bool {
    &&& 0 <= a <= b <= list.len()
    &&& a == 0 || list[a - 1] == COMMA
    &&& b == list.len() || list[b] == COMMA
    &&& forall|i: int| a <= i < b ==> list[i] != COMMA
}

/// Whether `origin` is one of the entries of `list`, a text of origins with
/// commas between them.
pub open spec fn listed(list: Seq<char>, origin: Seq<char>) -> bool {
    exists|a: int, b: int| is_entry(list, a, b) && #[trigger] list.subrange(a, b) == origin
}

/// The characters of a text.
pub fn chars_of(text: &str) -> (res: Vec<char>)
    ensures
        res@ == text@,
{
    let mut out: Vec<char> = Vec::new();
    for c in it: text.chars()
        invariant
            it.seq() == text@,
            out@ == text@.take(it.index()),
    {
        let ghost before = out@;
        out.push(c);
        assert(out@ =~= text@.take(it.index() + 1));
    }
    assert(text@.take(text@.len() as int) =~= text@);
    out
}

/// The cross-origin policy of the store.
#[derive(Debug, Clone, Copy, PartialEq, Eq, Structural)]
pub struct Cors;

impl Cors {
    /// Whether a request from `origin` is let in by the list of allowed
    /// origins: it is if and only if the origin is, to the letter, one of the
    /// entries that stand between the commas of the list.
    pub fn allows(allowed: &str, origin: &str) -> (res: bool)
        ensures
            res == listed(allowed@, origin@),
    {
        let list = chars_of(allowed);
        let want = chars_of(origin);
        let mut a: usize = 0;
        loop
            invariant
                a <= list.len(),
                list@ == allowed@,
                want@ == origin@,
                a == 0 || list@[a - 1] == COMMA,
                forall|x: int, y: int|
                    is_entry(list@, x, y) && x < a ==> #[trigger] list@.subrange(x, y) != want@,
            decreases list.len() - a,
        {
            let mut b: usize = a;
            while b < list.len() && list[b] != ','
                invariant
                    a <= b <= list.len(),
                    forall|i: int| a <= i < b ==> list@[i] != COMMA,
                decreases list.len() - b,
            {
                b += 1;
            }
            assert(is_entry(list@, a as int, b as int));
            // the entry that starts at `a` ends at `b` and nowhere else
            assert forall|y: int| is_entry(list@, a as int, y) implies y == b by {
                if y < b {
                    assert(list@[y] != COMMA);
                }
                if y > b {
                    assert(list@[b as int] != COMMA);
                }
            }
            let mut same = b - a == want.len();
            let mut i: usize = 0;
            while same && i < want.len()
                invariant
                    a <= b <= list.len(),
                    same ==> b - a == want.len(),
                    i <= want.len(),
                    same ==> forall|k: int| 0 <= k < i ==> list@[a + k] == want@[k],
                    !same ==> list@.subrange(a as int, b as int) != want@,
                decreases want.len() - i + (if same { 1int } else { 0int }),
            {
                if list[a + i] != want[i] {
                    same = false;
                    assert(list@.subrange(a as int, b as int)[i as int] != want@[i as int]);
                } else {
                    i += 1;
                }
            }
            if same {
                assert(list@.subrange(a as int, b as int) =~= want@);
                return true;
            }
            if b == list.len() {
                assert forall|x: int, y: int| is_entry(list@, x, y) implies #[trigger] list@.subrange(
                    x,
                    y,
                ) != want@ by {
                    if x >= a {
                        if x > a {
                            // an entry cannot start inside the last one
                            assert(list@[x - 1] != COMMA);
                        }
                    }
                }
                return false;
            }
            proof {
                assert forall|x: int, y: int| is_entry(list@, x, y) && x < b + 1 implies #[trigger] list@.subrange(
                    x,
                    y,
                ) != want@ by {
                    if x > a {
                        assert(list@[x - 1] != COMMA);
                    }
                }
            }
            a = b + 1;
        }
    }
}

/// The answer to a preflight request: always the plain success status.
pub fn options_handler() -> (res: Status)
    ensures
        res == Status::Success,
{
    Status::Success
}

} // verus!
