//! Lists of texts, written with commas.

use crate::common::text::{joined, texts};
use vstd::prelude::*;
use vstd::string::StringExecFns;

verus! {

/// What [`Join::join_comma_wrapped`] returns: nothing for no items, else
/// the items between the two wraps.
pub open spec fn comma_wrapped(items: Seq<Seq<char>>, wrap_l: Seq<char>, wrap_r: Seq<char>) -> Seq<
    char,
> {
    if items.len() == 0 {
        Seq::empty()
    } else {
        wrap_l + joined(items, ", "@) + wrap_r
    }
}

/// Writing a list with `", "` between its items.
pub trait Join {
    /// The texts of the items.
    spec fn items(&self) -> Seq<Seq<char>>;

    /// The items with `", "` between them; nothing if there is no item.
    fn join_comma(&self) -> (res: Option<String>)
        ensures
            res is Some <==> self.items().len() > 0,
            res matches Some(s) ==> s@ == joined(self.items(), ", "@),
    ;

    /// The items with `", "` between them; the empty text if there is no
    /// item.
    fn join_comma_or_empty(&self) -> (res: String)
        ensures
            res@ == joined(self.items(), ", "@),
    ;

    /// The items with `", "` between them and the wraps around them; the
    /// empty text, without the wraps, if there is no item.
    fn join_comma_wrapped(&self, wrap_l: &str, wrap_r: &str) -> (res: String)
        ensures
            res@ == comma_wrapped(self.items(), wrap_l@, wrap_r@),
    ;
}

impl Join for Vec<String> {
    open spec fn items(&self) -> Seq<Seq<char>> {
        texts(self@)
    }

    fn join_comma(&self) -> (res: Option<String>) {
        if self.len() == 0 {
            return None;
        }
        let mut acc = self[0].clone();
        let mut i: usize = 1;
        assert(texts(self@).take(1) =~= seq![self[0]@]);
        assert(joined(texts(self@).take(1), ", "@) == self[0]@);
        while i < self.len()
            invariant
                1 <= i <= self.len(),
                acc@ == joined(texts(self@).take(i as int), ", "@),
            decreases self.len() - i,
        {
            acc.append(", ");
            acc.append(self[i].as_str());
            proof {
                let next = texts(self@).take(i + 1);
                assert(next.drop_last() =~= texts(self@).take(i as int));
                assert(next.last() == self[i as int]@);
            }
            i += 1;
        }
        assert(texts(self@).take(i as int) =~= texts(self@));
        Some(acc)
    }

    fn join_comma_or_empty(&self) -> (res: String) {
        match self.join_comma() {
            Some(x) => x,
            None => String::new(),
        }
    }

    fn join_comma_wrapped(&self, wrap_l: &str, wrap_r: &str) -> (res: String) {
        match self.join_comma() {
            Some(x) => {
                let mut out = String::from_str(wrap_l);
                out.append(x.as_str());
                out.append(wrap_r);
                out
            },
            None => String::new(),
        }
    }
}

} // verus!
