//! The set of failed units found in one run.
//!
//! `FailedUnits` keeps the unit names in encounter order, one diagnostic text
//! per name at the same index (empty until it is recorded), and the raw
//! bullet-marked lines for the logs. The count always equals the number of
//! names and of diagnostic texts.

use vstd::prelude::*;

use crate::parse::{
    extract_unit_name, failed_lines_of, is_failed_line, lemma_all_wellformed,
    lemma_listing_take_step, lemma_no_failed_lines, line_is_failed, lines_of, names_of,
    split_lines, unit_name_of,
};
use vstd::string::StringExecFns;

verus! {

/// The failed units of one run: how many, their names in encounter order, the
/// diagnostic text per unit at the same index, and the raw listing lines they
/// came from.
#[derive(Debug)]
pub struct FailedUnits {
    pub number: usize,
    pub messages: Vec<String>,
    pub systemctl_full: Vec<String>,
    pub names: Vec<String>,
}

impl FailedUnits {
    /// The count equals the number of names, and every name has its slot of
    /// diagnostic text.
    pub open spec fn wf(self) -> bool {
        &&& self.number == self.names@.len()
        &&& self.systemctl_full@.len() == self.names@.len()
    }

    /// An empty set: no failed units found yet.
    pub fn new() -> (r: Self)
        ensures
            r.wf(),
            r.number == 0,
            r.names.deep_view() == Seq::<Seq<char>>::empty(),
            r.systemctl_full.deep_view() == Seq::<Seq<char>>::empty(),
            r.messages.deep_view() == Seq::<Seq<char>>::empty(),
    {
        let r = FailedUnits {
            number: 0,
            messages: Vec::new(),
            systemctl_full: Vec::new(),
            names: Vec::new(),
        };
        proof {
            assert(r.names.deep_view() =~= Seq::<Seq<char>>::empty());
            assert(r.systemctl_full.deep_view() =~= Seq::<Seq<char>>::empty());
            assert(r.messages.deep_view() =~= Seq::<Seq<char>>::empty());
        }
        r
    }

    /// Records one listing line. The line is kept for the logs; where it
    /// names a unit, the name is appended together with an empty placeholder
    /// for its diagnostic text, and the name is handed back so the caller can
    /// fetch that text. A malformed line adds no entry.
    pub fn add_failed(&mut self, s: String) -> (r: Option<String>)
        requires
            old(self).wf(),
        ensures
            final(self).wf(),
            final(self).messages.deep_view() == old(self).messages.deep_view().push(s@),
            unit_name_of(s@) matches Some(n) ==> {
                &&& final(self).names.deep_view() == old(self).names.deep_view().push(n)
                &&& final(self).systemctl_full.deep_view() == old(
                    self,
                ).systemctl_full.deep_view().push(Seq::<char>::empty())
                &&& final(self).number == old(self).number + 1
                &&& (r matches Some(rn) && rn@ == n)
            },
            unit_name_of(s@) is None ==> {
                &&& final(self).names == old(self).names
                &&& final(self).systemctl_full == old(self).systemctl_full
                &&& final(self).number == old(self).number
                &&& r is None
            },
    {
        let name = extract_unit_name(s.as_str());
        let ghost old_msgs = self.messages.deep_view();
        let ghost s_view = s@;
        self.messages.push(s);
        proof {
            assert(self.messages.deep_view() =~= old_msgs.push(s_view));
        }
        match name {
            Some(n) => {
                let ghost old_names = self.names.deep_view();
                let ghost old_details = self.systemctl_full.deep_view();
                self.names.push(n.clone());
                self.systemctl_full.push(String::new());
                self.number = self.names.len();
                proof {
                    assert(self.names.deep_view() =~= old_names.push(n@));
                    assert(self.systemctl_full.deep_view() =~= old_details.push(
                        Seq::<char>::empty(),
                    ));
                }
                Some(n)
            },
            None => None,
        }
    }

    /// Records the diagnostic text fetched for the unit at index `i`,
    /// replacing the placeholder. Nothing else moves.
    pub fn set_detail(&mut self, i: usize, detail: String)
        requires
            old(self).wf(),
            i < old(self).number,
        ensures
            final(self).wf(),
            final(self).systemctl_full.deep_view() == old(self).systemctl_full.deep_view().update(
                i as int,
                detail@,
            ),
            final(self).names == old(self).names,
            final(self).messages == old(self).messages,
            final(self).number == old(self).number,
    {
        let ghost old_details = self.systemctl_full.deep_view();
        let ghost d_view = detail@;
        self.systemctl_full[i] = detail;
        proof {
            assert(self.systemctl_full.deep_view() =~= old_details.update(i as int, d_view));
        }
    }
}

/// Every name followed by a comma separator, in order.
pub open spec fn joined_names(names: Seq<Seq<char>>) -> Seq<char>
    decreases names.len(),
{
    if names.len() == 0 {
        Seq::empty()
    } else {
        joined_names(names.drop_last()) + names.last() + ", "@
    }
}

/// The one-line summary of a set of failed units, as it goes to the logs.
pub open spec fn summary_of(names: Seq<Seq<char>>) -> Seq<char> {
    if names.len() == 0 {
        "No failed units"@
    } else if names.len() == 1 {
        "Failed Units: [ "@ + names[0] + " ]"@
    } else {
        "Failed Units: [ "@ + joined_names(names) + " ]"@
    }
}

impl FailedUnits {
    /// The one-line summary of this set: the names between brackets, or a
    /// fixed healthy-state phrase where nothing failed.
    pub fn summary(&self) -> (r: String)
        requires
            self.wf(),
        ensures
            r@ == summary_of(self.names.deep_view()),
    {
        let ghost ns = self.names.deep_view();
        if self.number == 0 {
            return String::from_str("No failed units");
        }
        let mut r = String::from_str("Failed Units: [ ");
        if self.number == 1 {
            r.append(self.names[0].as_str());
            proof {
                assert(ns[0] == self.names@[0]@);
            }
        } else {
            let mut i: usize = 0;
            while i < self.names.len()
                invariant
                    self.wf(),
                    ns == self.names.deep_view(),
                    i <= self.names@.len(),
                    r@ == "Failed Units: [ "@ + joined_names(ns.take(i as int)),
                decreases self.names@.len() - i,
            {
                r.append(self.names[i].as_str());
                r.append(", ");
                proof {
                    assert(ns.take(i + 1).drop_last() =~= ns.take(i as int));
                    assert(ns.take(i + 1).last() == self.names@[i as int]@);
                    assert(r@ =~= "Failed Units: [ "@ + joined_names(ns.take(i + 1)));
                }
                i = i + 1;
            }
            proof {
                assert(ns.take(i as int) =~= ns);
            }
        }
        r.append(" ]");
        r
    }
}

/// What collecting a listing yields: the names of its bullet-marked lines in
/// encounter order, an empty diagnostic placeholder per name, and the
/// bullet-marked lines themselves for the logs.
pub open spec fn collect_post(r: FailedUnits, s: Seq<char>) -> bool {
    &&& r.wf()
    &&& r.names.deep_view() == names_of(s)
    &&& r.number == names_of(s).len()
    &&& r.systemctl_full.deep_view() == Seq::new(names_of(s).len(), |k: int| Seq::<char>::empty())
    &&& r.messages.deep_view() == failed_lines_of(s)
}

/// Builds the set of failed units out of the listing text: splits it into
/// lines, keeps the bullet-marked ones, and appends each well-formed one's
/// unit name. The diagnostic texts stay empty placeholders; the caller
/// fetches them per returned name and records each with `set_detail`.
pub fn collect(listing: &str) -> (r: FailedUnits)
    ensures
        collect_post(r, listing@),
{
    let lines = split_lines(listing);
    let ghost ls = lines.deep_view();
    let mut fu = FailedUnits::new();
    let mut i: usize = 0;
    while i < lines.len()
        invariant
            ls == lines_of(listing@),
            lines.deep_view() == ls,
            i <= lines@.len(),
            ls.len() == lines@.len(),
            fu.wf(),
            fu.names.deep_view() == crate::parse::names_of_lines(ls.take(i as int)),
            fu.number == fu.names.deep_view().len(),
            fu.systemctl_full.deep_view() == Seq::new(
                fu.names.deep_view().len(),
                |k: int| Seq::<char>::empty(),
            ),
            fu.messages.deep_view() == crate::parse::failed_lines_of_lines(ls.take(i as int)),
        decreases lines@.len() - i,
    {
        proof {
            assert(ls[i as int] == lines@[i as int]@);
            lemma_listing_take_step(ls, i as int);
        }
        if line_is_failed(lines[i].as_str()) {
            let _ = fu.add_failed(lines[i].clone());
            proof {
                if unit_name_of(ls[i as int]) is Some {
                    assert(fu.systemctl_full.deep_view() =~= Seq::new(
                        fu.names.deep_view().len(),
                        |k: int| Seq::<char>::empty(),
                    ));
                }
            }
        } else {
            proof {
                assert(!is_failed_line(ls[i as int]));
            }
        }
        i = i + 1;
    }
    proof {
        assert(ls.take(i as int) =~= ls);
    }
    fu
}

/// The count equals the number of names and the number of diagnostic slots
/// after every collect, also where some lines were malformed; recording a
/// fetched text later keeps it so (`set_detail` preserves `wf`).
pub proof fn lemma_alignment_invariant(r: FailedUnits, s: Seq<char>)
    requires
        collect_post(r, s),
    ensures
        r.number == r.names@.len(),
        r.number == r.systemctl_full@.len(),
{
}

/// Collecting is a function of the listing text alone: two runs over one
/// unchanged listing yield the same count, names, diagnostic slots and
/// recorded lines.
pub proof fn lemma_collect_deterministic(a: FailedUnits, b: FailedUnits, s: Seq<char>)
    requires
        collect_post(a, s),
        collect_post(b, s),
    ensures
        a.number == b.number,
        a.names.deep_view() == b.names.deep_view(),
        a.systemctl_full.deep_view() == b.systemctl_full.deep_view(),
        a.messages.deep_view() == b.messages.deep_view(),
{
}

/// A listing without bullet-marked lines collects to the empty set.
pub proof fn lemma_collect_empty(r: FailedUnits, s: Seq<char>)
    requires
        collect_post(r, s),
        forall|i: int| 0 <= i < lines_of(s).len() ==> !is_failed_line(#[trigger] lines_of(s)[i]),
    ensures
        r.number == 0,
        r.names.deep_view().len() == 0,
        r.systemctl_full.deep_view().len() == 0,
        r.messages.deep_view().len() == 0,
{
    lemma_no_failed_lines(lines_of(s));
}

/// `collect` finds exactly one unit per well-formed bullet-marked line of the
/// listing, named by its second token, in encounter order — whatever other
/// lines stand around them.
pub proof fn lemma_collect_names(r: FailedUnits, s: Seq<char>)
    requires
        collect_post(r, s),
    ensures
        r.number == crate::parse::wellformed_of(s).len(),
        r.names.deep_view() == crate::parse::wellformed_of(s).map_values(
            (|l: Seq<char>| unit_name_of(l)->Some_0),
        ),
{
    crate::parse::lemma_names_are_wellformed_lines(lines_of(s));
}

/// On a listing whose bullet-marked lines are all well formed, `collect`
/// finds exactly one unit per such line, named by its second token, in
/// encounter order.
pub proof fn lemma_collect_wellformed(r: FailedUnits, s: Seq<char>)
    requires
        collect_post(r, s),
        forall|i: int|
            0 <= i < lines_of(s).len() && is_failed_line(#[trigger] lines_of(s)[i])
                ==> unit_name_of(lines_of(s)[i]) is Some,
    ensures
        r.number == failed_lines_of(s).len(),
        r.names.deep_view() == failed_lines_of(s).map_values(
            (|l: Seq<char>| unit_name_of(l)->Some_0),
        ),
{
    lemma_all_wellformed(lines_of(s));
}

} // verus!
