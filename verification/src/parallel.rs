//! How the results of a file's parts are put together, and what a parallel
//! download does at its end.

use vstd::prelude::*;
use crate::control::CtrlState;
use crate::messages::{cancelled_text, is_cancelled_message};

verus! {

/// How one part of a parallel download ended.
pub enum PartOutcome {
    /// All its bytes were written.
    Done,
    /// It gave up with this text.
    Failed(String),
    /// Its task panicked.
    Panicked,
}

/// The text of a part whose task panicked.
pub open spec fn panicked_text() -> Seq<char> {
    "part task panicked"@
}

/// The error a part outcome carries, if it failed.
pub open spec fn outcome_error(o: PartOutcome) -> Option<Seq<char>> {
    match o {
        PartOutcome::Done => None,
        PartOutcome::Failed(e) => Some(e@),
        PartOutcome::Panicked => Some(panicked_text()),
    }
}

/// The first error among part outcomes, in the order the parts were
/// started.
pub open spec fn first_error(os: Seq<PartOutcome>) -> Option<Seq<char>>
    decreases os.len(),
{
    if os.len() == 0 {
        None
    } else {
        match outcome_error(os[0]) {
            Some(e) => Some(e),
            None => first_error(os.drop_first()),
        }
    }
}

proof fn lemma_first_error_prefix(os: Seq<PartOutcome>, i: int)
    requires
        0 <= i <= os.len(),
        forall|j: int| 0 <= j < i ==> outcome_error(#[trigger] os[j]) is None,
    ensures
        first_error(os) == first_error(os.skip(i)),
    decreases i,
{
    if i > 0 {
        assert forall|j: int| 0 <= j < i - 1 implies outcome_error(#[trigger] os.drop_first()[j]) is None by {
            assert(os.drop_first()[j] == os[j + 1]);
        }
        lemma_first_error_prefix(os.drop_first(), i - 1);
        assert(os.drop_first().skip(i - 1) =~= os.skip(i));
    } else {
        assert(os.skip(0) =~= os);
    }
}

/// The parts' outcomes fail the download exactly when one of them is not
/// `Done`, and then the first such outcome decides the error: a failed
/// part's own text, whatever it says, or the text of a panic.
pub proof fn lemma_first_error_decided(os: Seq<PartOutcome>)
    ensures
        first_error(os) is None <==> forall|i: int| 0 <= i < os.len() ==> #[trigger] os[i] is Done,
        forall|i: int|
            0 <= i < os.len() && (forall|j: int| 0 <= j < i ==> #[trigger] os[j] is Done) ==> match #[trigger] os[i] {
                PartOutcome::Done => true,
                PartOutcome::Failed(e) => first_error(os) == Some(e@),
                PartOutcome::Panicked => first_error(os) == Some(panicked_text()),
            },
    decreases os.len(),
{
    if os.len() > 0 {
        let t = os.drop_first();
        lemma_first_error_decided(t);
        assert forall|i: int| 0 <= i < t.len() implies (#[trigger] t[i] is Done <==> os[i + 1] is Done) by {
            assert(t[i] == os[i + 1]);
        }
        if os[0] is Done {
            assert((forall|i: int| 0 <= i < os.len() ==> #[trigger] os[i] is Done) <==> (forall|i: int|
                0 <= i < t.len() ==> #[trigger] t[i] is Done)) by {
                if forall|i: int| 0 <= i < t.len() ==> #[trigger] t[i] is Done {
                    assert forall|i: int| 0 <= i < os.len() implies #[trigger] os[i] is Done by {
                        if i > 0 {
                            assert(t[i - 1] is Done);
                        }
                    }
                }
            }
            assert forall|i: int|
                0 <= i < os.len() && (forall|j: int| 0 <= j < i ==> #[trigger] os[j] is Done) implies match #[trigger] os[i] {
                    PartOutcome::Done => true,
                    PartOutcome::Failed(e) => first_error(os) == Some(e@),
                    PartOutcome::Panicked => first_error(os) == Some(panicked_text()),
                } by {
                if i > 0 {
                    assert(t[i - 1] == os[i]);
                    assert forall|j: int| 0 <= j < i - 1 implies #[trigger] t[j] is Done by {
                        assert(t[j] == os[j + 1]);
                        assert(os[j + 1] is Done);
                    }
                }
            }
        } else {
            assert(!(os[0] is Done));
            assert forall|i: int|
                0 <= i < os.len() && (forall|j: int| 0 <= j < i ==> #[trigger] os[j] is Done) implies match #[trigger] os[i] {
                    PartOutcome::Done => true,
                    PartOutcome::Failed(e) => first_error(os) == Some(e@),
                    PartOutcome::Panicked => first_error(os) == Some(panicked_text()),
                } by {
                if i > 0 {
                    assert(os[0] is Done);
                }
            }
        }
    }
}

/// The first error among the outcomes of the parts, in the order the parts
/// were started; `None` when all of them finished.
pub fn first_part_error(outcomes: &Vec<PartOutcome>) -> (r: Option<String>)
    ensures
        match r {
            Some(e) => first_error(outcomes@) == Some(e@),
            None => first_error(outcomes@) is None,
        },
        r is None <==> forall|i: int| 0 <= i < outcomes@.len() ==> #[trigger] outcomes@[i] is Done,
        forall|i: int|
            0 <= i < outcomes@.len() && (forall|j: int| 0 <= j < i ==> #[trigger] outcomes@[j] is Done)
                ==> match #[trigger] outcomes@[i] {
                PartOutcome::Done => true,
                PartOutcome::Failed(e) => r matches Some(x) && x@ == e@,
                PartOutcome::Panicked => r matches Some(x) && x@ == panicked_text(),
            },
{
    proof {
        lemma_first_error_decided(outcomes@);
    }
    let mut i: usize = 0;
    while i < outcomes.len()
        invariant
            i <= outcomes@.len(),
            forall|j: int| 0 <= j < i ==> outcome_error(#[trigger] outcomes@[j]) is None,
        decreases outcomes@.len() - i,
    {
        proof {
            lemma_first_error_prefix(outcomes@, i as int);
            assert(outcomes@.skip(i as int)[0] == outcomes@[i as int]);
        }
        match &outcomes[i] {
            PartOutcome::Done => {},
            PartOutcome::Failed(e) => {
                return Some(e.clone());
            },
            PartOutcome::Panicked => {
                return Some(String::from_str("part task panicked"));
            },
        }
        i = i + 1;
    }
    proof {
        lemma_first_error_prefix(outcomes@, i as int);
    }
    None
}

/// How a parallel download ends.
pub enum Finish {
    /// Every part finished: the download is complete.
    Complete,
    /// A part failed: the download shows `error`, and the partly written
    /// file is deleted when the download was cancelled.
    Failed { error: String, delete_file: bool },
}

/// Ends a parallel download, from the first error of its parts and its
/// control state: without an error it is complete; with one it fails with
/// that error, and the file goes when the user cancelled or the error is
/// the cancellation.
pub fn finish_parallel(first_error: Option<String>, ctrl: CtrlState) -> (r: Finish)
    ensures
        match first_error {
            None => r is Complete,
            Some(e) => r matches Finish::Failed { error, delete_file } && error@ == e@ && delete_file
                == (ctrl == CtrlState::Cancelled || e@ == cancelled_text()),
        },
{
    match first_error {
        None => Finish::Complete,
        Some(e) => {
            let delete_file = ctrl == CtrlState::Cancelled || is_cancelled_message(e.as_str());
            Finish::Failed { error: e, delete_file }
        },
    }
}

} // verus!
