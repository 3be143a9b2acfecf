//! Sci-Hub: the mirrors that switch this upstream on.
use crate::text;
use crate::text::{split_at_char, trim};
use vstd::prelude::*;

verus! {

/// The entries of a comma-separated list, without the blanks around them;
/// blank ones are left out.
pub open spec fn listed_mirrors(pieces: Seq<Seq<char>>) -> Seq<Seq<char>>
    decreases pieces.len(),
{
    if pieces.len() == 0 {
        Seq::empty()
    } else {
        let before = listed_mirrors(pieces.drop_last());
        let mirror = text::trimmed(pieces.last());
        if mirror.len() == 0 {
            before
        } else {
            before.push(mirror)
        }
    }
}

/// The Sci-Hub mirrors in the value of `SCIHUB_MIRRORS`.
pub fn scihub_mirrors(raw: &str) -> (res: Vec<String>)
    ensures
        text::texts(res@) == listed_mirrors(text::pieces(raw@, ',')),
{
    let pieces = split_at_char(raw, ',');
    let ghost all = text::texts(pieces@);
    let mut out: Vec<String> = Vec::new();
    let mut i: usize = 0;
    assert(text::texts(out@) =~= listed_mirrors(all.take(0)));
    while i < pieces.len()
        invariant
            all == text::texts(pieces@),
            i <= pieces@.len(),
            text::texts(out@) == listed_mirrors(all.take(i as int)),
        decreases pieces@.len() - i,
    {
        assert(all.take(i + 1).drop_last() =~= all.take(i as int));
        let mirror = trim(pieces[i].as_str());
        if !mirror.as_str().is_empty() {
            let ghost before = out@;
            out.push(mirror);
            assert(text::texts(out@) =~= text::texts(before).push(mirror@));
        }
        i = i + 1;
    }
    assert(all.take(i as int) =~= all);
    out
}

/// Every piece is blank.
pub open spec fn all_blank(pieces: Seq<Seq<char>>) -> bool {
    forall|i: int| 0 <= i < pieces.len() ==> text::trimmed(#[trigger] pieces[i]).len() == 0
}

/// No mirror is blank, and a list names none if and only if there is nothing
/// but blanks between its commas.
pub proof fn law_no_blank_mirrors(pieces: Seq<Seq<char>>)
    ensures
        forall|i: int|
            0 <= i < listed_mirrors(pieces).len() ==> (#[trigger] listed_mirrors(pieces)[i]).len()
                > 0,
        all_blank(pieces) <==> listed_mirrors(pieces).len() == 0,
    decreases pieces.len(),
{
    if pieces.len() > 0 {
        let before = pieces.drop_last();
        law_no_blank_mirrors(before);
        if all_blank(pieces) {
            assert forall|i: int| 0 <= i < before.len() implies text::trimmed(
                #[trigger] before[i],
            ).len() == 0 by {
                assert(before[i] == pieces[i]);
            }
            assert(text::trimmed(pieces[pieces.len() - 1]).len() == 0);
        }
        if all_blank(before) && text::trimmed(pieces.last()).len() == 0 {
            assert forall|i: int| 0 <= i < pieces.len() implies text::trimmed(
                #[trigger] pieces[i],
            ).len() == 0 by {
                if i < before.len() {
                    assert(before[i] == pieces[i]);
                }
            }
        }
    }
}

} // verus!
