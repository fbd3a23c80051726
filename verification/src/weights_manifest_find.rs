//! Lookup of a manifest entry by name.

use vstd::prelude::*;
use crate::weights_manifest::{Entry, EntryModel, ManifestModel, ManifestView};
use crate::util::text::str_eq;

verus! {

/// Whether record `k` is the first record named `name`, with every record up
/// to and including it decoding.
pub open spec fn is_first_match(m: ManifestModel, name: Seq<char>, k: nat) -> bool {
    &&& k < m.count
    &&& m.decodes_up_to(k + 1)
    &&& m.entry(k).name == name
    &&& forall|j: nat| j < k ==> (#[trigger] m.entry(j)).name != name
}

/// Whether a scan for `name` comes to an end without a match: either no
/// record bears the name, or a record that does not decode stands before the
/// first that does.
pub open spec fn no_match(m: ManifestModel, name: Seq<char>) -> bool {
    forall|k: nat| !is_first_match(m, name, k)
}

/// No two records are the first of a name.
pub proof fn lemma_first_match_unique(m: ManifestModel, name: Seq<char>, a: nat, b: nat)
    requires
        is_first_match(m, name, a),
        is_first_match(m, name, b),
    ensures
        a == b,
{
    if a < b {
        assert(m.entry(a).name != name);
    } else if b < a {
        assert(m.entry(b).name != name);
    }
}

/// The entry that a scan for `name` finds, if it finds one.
pub open spec fn find_spec(m: ManifestModel, name: Seq<char>) -> Option<EntryModel> {
    if exists|k: nat| is_first_match(m, name, k) {
        Some(m.entry(choose|k: nat| is_first_match(m, name, k)))
    } else {
        None
    }
}

/// First entry named `name`, found by a linear scan.
///
/// The scan stops at a record that does not decode, so an entry behind a
/// damaged record is not found.
pub fn find<'a>(view: &'a ManifestView<'a>, name: &str) -> (r: Option<Entry<'a>>)
    ensures
        match r {
            Some(e) => find_spec(view@, name@) == Some(e@),
            None => find_spec(view@, name@) is None,
        },
        r matches Some(e) ==> exists|k: nat| #[trigger] is_first_match(view@, name@, k) && e@ == view@.entry(k),
        r is None ==> no_match(view@, name@),
{
    let count: u32 = view.count();
    let mut at: usize = view.first_entry_offset();
    let mut i: u32 = 0;
    while i < count
        invariant
            i <= count,
            count == view@.count,
            at == view@.record_start(i as nat),
            view@.decodes_up_to(i as nat),
            forall|j: nat| j < i ==> (#[trigger] view@.entry(j)).name != name@,
        decreases count - i,
    {
        match view.entry_at(at) {
            Err(_) => {
                assert(view@.record(i as nat) is Err);
                assert forall|k: nat| !is_first_match(view@, name@, k) by {
                    if is_first_match(view@, name@, k) {
                        if k >= i {
                            assert(view@.record(i as nat) is Ok);
                        }
                    }
                }
                return None;
            },
            Ok((entry, next)) => {
                assert(view@.record(i as nat) is Ok);
                assert(view@.record_start((i + 1) as nat) == next);
                if str_eq(entry.name, name) {
                    assert(is_first_match(view@, name@, i as nat));
                    proof {
                        let k = choose|k: nat| is_first_match(view@, name@, k);
                        lemma_first_match_unique(view@, name@, k, i as nat);
                    }
                    return Some(entry);
                }
                at = next;
                i = i + 1;
            },
        }
    }
    assert forall|k: nat| !is_first_match(view@, name@, k) by {}
    None
}

} // verus!
