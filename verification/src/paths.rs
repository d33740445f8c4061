//! Candidate paths and the extension filter.

use vstd::prelude::*;
use crate::text::{lowercase_seq, texts, to_lowercase};
use crate::trusted::path_extension;

verus! {

/// A path found during enumeration, with the extension that the platform
/// reads off it.
#[derive(Debug, PartialEq, Eq)]
pub struct CandidatePath {
    pub path: String,
    pub extension: Option<String>,
}

/// What the filter does where no allow-list is given.
#[derive(Debug, Clone, Copy, PartialEq, Eq)]
pub enum FilterPolicy {
    /// Every candidate passes.
    ExplicitOnly,
    /// The candidates without extension are dropped.
    DropExtensionless,
}

/// A `CandidatePath` as plain mathematical values.
pub struct CandidateModel {
    pub path: Seq<char>,
    pub extension: Option<Seq<char>>,
}

impl View for CandidatePath {
    type V = CandidateModel;

    open spec fn view(&self) -> CandidateModel {
        CandidateModel {
            path: self.path@,
            extension: match self.extension {
                Some(extension) => Some(extension@),
                None => None,
            },
        }
    }
}

/// The models of the candidates of `paths`.
pub open spec fn models(paths: Seq<CandidatePath>) -> Seq<CandidateModel> {
    paths.map_values(|p: CandidatePath| p@)
}

/// The paths of `candidates`, without their extensions.
pub open spec fn paths_of(candidates: Seq<CandidateModel>) -> Seq<Seq<char>> {
    candidates.map_values(|c: CandidateModel| c.path)
}

/// Two extensions are the same but for the case of their ASCII letters.
pub open spec fn same_extension(left: Seq<char>, right: Seq<char>) -> bool {
    lowercase_seq(left) == lowercase_seq(right)
}

/// `extension` is one of `allow_list`, case aside.
pub open spec fn listed(extension: Seq<char>, allow_list: Seq<Seq<char>>) -> bool {
    exists|i: int| 0 <= i < allow_list.len() && same_extension(extension, #[trigger] allow_list[i])
}

/// The candidate passes the filter. With an allow-list, it passes when it
/// has an extension that the list holds. Without one, it passes unless the
/// policy drops candidates without extension and it has none.
pub open spec fn passes(
    candidate: CandidateModel,
    allow_list: Seq<Seq<char>>,
    policy: FilterPolicy,
) -> bool {
    match candidate.extension {
        Some(extension) => allow_list.len() == 0 || listed(extension, allow_list),
        None => allow_list.len() == 0 && policy is ExplicitOnly,
    }
}

/// The candidates that pass the filter, in the order in which they came.
pub open spec fn filtered(
    paths: Seq<CandidateModel>,
    allow_list: Seq<Seq<char>>,
    policy: FilterPolicy,
) -> Seq<CandidateModel> {
    paths.filter(|c: CandidateModel| passes(c, allow_list, policy))
}

/// Without an allow-list, and unless the policy says otherwise, nothing is
/// filtered out.
pub proof fn lemma_empty_list_keeps_all(paths: Seq<CandidateModel>)
    ensures
        filtered(paths, Seq::<Seq<char>>::empty(), FilterPolicy::ExplicitOnly) == paths,
    decreases paths.len(),
{
    let none = Seq::<Seq<char>>::empty();
    let keep = |c: CandidateModel| passes(c, none, FilterPolicy::ExplicitOnly);
    if paths.len() == 0 {
        assert(paths.filter(keep) =~= paths) by {
            reveal(Seq::filter);
        }
    } else {
        lemma_empty_list_keeps_all(paths.drop_last());
        assert(paths == paths.drop_last().push(paths.last()));
        paths.drop_last().lemma_filter_push(paths.last(), keep);
    }
}

/// With an allow-list, whatever the policy, each candidate that stays has
/// an extension that the list holds.
pub proof fn lemma_kept_are_listed(
    paths: Seq<CandidateModel>,
    allow_list: Seq<Seq<char>>,
    policy: FilterPolicy,
)
    requires
        allow_list.len() > 0,
    ensures
        forall|i: int|
            0 <= i < filtered(paths, allow_list, policy).len() ==> {
                let kept = #[trigger] filtered(paths, allow_list, policy)[i];
                kept.extension is Some && listed(kept.extension->0, allow_list)
            },
{
    assert forall|i: int| 0 <= i < filtered(paths, allow_list, policy).len() implies {
        let kept = #[trigger] filtered(paths, allow_list, policy)[i];
        kept.extension is Some && listed(kept.extension->0, allow_list)
    } by {
        paths.lemma_filter_pred(|c: CandidateModel| passes(c, allow_list, policy), i);
    }
}

/// An allow-list with every entry folded to lower case, so that a
/// candidate's extension is folded once and compared as it is.
struct FoldedList {
    entries: Vec<String>,
}

impl FoldedList {
    /// The entries are those of `allow_list`, folded.
    spec fn folds(&self, allow_list: Seq<Seq<char>>) -> bool {
        &&& self.entries.len() == allow_list.len()
        &&& forall|i: int|
            0 <= i < allow_list.len() ==> (#[trigger] self.entries[i])@ == lowercase_seq(
                allow_list[i],
            )
    }

    fn new(allow_list: &Vec<String>) -> (folded: FoldedList)
        ensures
            folded.folds(texts(allow_list@)),
    {
        let mut entries: Vec<String> = Vec::new();
        let mut i: usize = 0;
        while i < allow_list.len()
            invariant
                i <= allow_list.len(),
                entries.len() == i,
                forall|k: int|
                    0 <= k < i ==> (#[trigger] entries[k])@ == lowercase_seq(
                        texts(allow_list@)[k],
                    ),
            decreases allow_list.len() - i,
        {
            entries.push(to_lowercase(allow_list[i].as_str()));
            i = i + 1;
        }
        FoldedList { entries }
    }

    /// Tests whether the list holds `extension`, case aside.
    fn holds(&self, extension: &str, Ghost(allow_list): Ghost<Seq<Seq<char>>>) -> (r: bool)
        requires
            self.folds(allow_list),
        ensures
            r == listed(extension@, allow_list),
    {
        let folded = to_lowercase(extension);
        let mut i: usize = 0;
        while i < self.entries.len()
            invariant
                i <= self.entries.len(),
                self.folds(allow_list),
                folded@ == lowercase_seq(extension@),
                forall|k: int| 0 <= k < i ==> !same_extension(extension@, #[trigger] allow_list[k]),
            decreases self.entries.len() - i,
        {
            if self.entries[i] == folded {
                assert(same_extension(extension@, allow_list[i as int]));
                return true;
            }
            i = i + 1;
        }
        false
    }

    /// Tests whether `candidate` passes the filter of the list.
    fn lets_pass(
        &self,
        candidate: &CandidatePath,
        policy: FilterPolicy,
        Ghost(allow_list): Ghost<Seq<Seq<char>>>,
    ) -> (r: bool)
        requires
            self.folds(allow_list),
        ensures
            r == passes(candidate@, allow_list, policy),
    {
        match &candidate.extension {
            Some(extension) => self.entries.len() == 0 || self.holds(
                extension.as_str(),
                Ghost(allow_list),
            ),
            None => self.entries.len() == 0 && match policy {
                FilterPolicy::ExplicitOnly => true,
                FilterPolicy::DropExtensionless => false,
            },
        }
    }
}

impl CandidatePath {
    /// The candidate for `path`, with the extension that the platform reads
    /// off it.
    pub fn new(path: String) -> (candidate: CandidatePath)
        ensures
            candidate.path@ == path@,
    {
        let extension = path_extension(path.as_str());
        CandidatePath { path, extension }
    }

    /// Tests whether this candidate passes the filter of `allow_list` under
    /// `policy`.
    pub fn passes(&self, allow_list: &Vec<String>, policy: FilterPolicy) -> (r: bool)
        ensures
            r == passes(self@, texts(allow_list@), policy),
    {
        FoldedList::new(allow_list).lets_pass(self, policy, Ghost(texts(allow_list@)))
    }
}

/// Keeps the candidates that pass the filter of `allow_list` under
/// `policy`, in the order in which they came.
pub fn filter_paths_with(
    paths: Vec<CandidatePath>,
    allow_list: &Vec<String>,
    policy: FilterPolicy,
) -> (kept: Vec<CandidatePath>)
    ensures
        models(kept@) == filtered(models(paths@), texts(allow_list@), policy),
{
    let folded = FoldedList::new(allow_list);
    let ghost allowed = texts(allow_list@);
    let ghost all = models(paths@);
    let mut kept: Vec<CandidatePath> = Vec::new();
    proof {
        assert(models(kept@) =~= filtered(all.take(0), allowed, policy)) by {
            reveal(Seq::filter);
        }
    }
    for candidate in it: paths
        invariant
            it.seq() == paths@,
            all == models(paths@),
            folded.folds(allowed),
            models(kept@) == filtered(all.take(it.index()), allowed, policy),
    {
        proof {
            let seen = all.take(it.index());
            assert(all.take(it.index() + 1) == seen.push(candidate@));
            seen.lemma_filter_push(candidate@, |c: CandidateModel| passes(c, allowed, policy));
        }
        if folded.lets_pass(&candidate, policy, Ghost(allowed)) {
            let ghost earlier = kept@;
            kept.push(candidate);
            assert(models(kept@) =~= models(earlier).push(candidate@));
        }
    }
    assert(all.take(all.len() as int) == all);
    kept
}

/// Keeps the candidates that pass the filter of `allow_list`, in the order
/// in which they came. An empty allow-list keeps every candidate; otherwise
/// a candidate stays when it has an extension that the list holds, case
/// aside.
pub fn filter_paths(paths: Vec<CandidatePath>, allow_list: &Vec<String>) -> (kept: Vec<
    CandidatePath,
>)
    ensures
        models(kept@) == filtered(
            models(paths@),
            texts(allow_list@),
            FilterPolicy::ExplicitOnly,
        ),
{
    filter_paths_with(paths, allow_list, FilterPolicy::ExplicitOnly)
}

} // verus!
