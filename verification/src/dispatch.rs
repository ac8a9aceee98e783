//! The race between the trials, and the run as a whole.

use crate::archive::{archive_parses, entry_count, open_archive};
use crate::candidates::{
    candidate_set, is_candidate, lemma_candidate_set, lemma_no_list, lemma_sentinel_first,
    lemma_single_password, normalize_passwords, sentinel,
};
use crate::error::Error;
use crate::order::precedes;
use crate::worker::{extraction, try_password, unlocks};
use crate::ZipFileContents;
use vstd::prelude::*;

verus! {

/// The first password of `set` that solves the archive, if there is one.
pub open spec fn winner(bytes: Seq<u8>, set: Seq<Seq<char>>) -> Option<Seq<char>>
    decreases set.len(),
{
    if set.len() == 0 {
        None
    } else if unlocks(bytes, set[0]) {
        Some(set[0])
    } else {
        winner(bytes, set.drop_first())
    }
}

/// What one report decides, when `pending` trials had not reported before
/// it: a success wins the race at once; a failure loses it if it was the last
/// report to come, and decides nothing if not.
pub open spec fn verdict<'a>(pending: nat, outcome: Result<Vec<ZipFileContents<'a>>, Error>) -> Option<
    Result<Vec<ZipFileContents<'a>>, Error>,
> {
    match outcome {
        Ok(files) => Some(Ok(files)),
        Err(_) => if pending <= 1 {
            Some(Err(Error::CannotDecrypt))
        } else {
            None
        },
    }
}

/// A race between trials that report one by one, in whatever order they end.
pub struct Race {
    pending: usize,
}

impl Race {
    /// The number of trials that have not reported yet.
    pub closed spec fn pending(&self) -> nat {
        self.pending as nat
    }

    /// A race between `trials` trials.
    pub fn new(trials: usize) -> (race: Race)
        ensures
            race.pending() == trials,
    {
        Race { pending: trials }
    }

    /// Takes the outcome of one trial, and says how the race ends if that
    /// decides it.
    ///
    /// A success wins the race at once, with its files. A failure loses it if
    /// no other trial is still to report; why the trial failed is not kept.
    /// The caller returns the result as soon as there is one: the trials that
    /// are still running then report to nobody.
    pub fn report<'a>(&mut self, outcome: Result<Vec<ZipFileContents<'a>>, Error>) -> (decided:
        Option<Result<Vec<ZipFileContents<'a>>, Error>>)
        ensures
            final(self).pending() == if old(self).pending() == 0 {
                0
            } else {
                old(self).pending() - 1
            },
            decided == verdict(old(self).pending(), outcome),
    {
        let last = self.pending <= 1;
        if self.pending > 0 {
            self.pending = self.pending - 1;
        }
        match outcome {
            Ok(files) => Some(Ok(files)),
            Err(_) => if last {
                Some(Err(Error::CannotDecrypt))
            } else {
                None
            },
        }
    }
}

/// How a race ends in which the trials report `outcomes`, in this order, and
/// `pending` trials had not reported before: the first verdict that decides
/// it, and nothing if no report does.
pub open spec fn race_decides<'a>(
    pending: nat,
    outcomes: Seq<Result<Vec<ZipFileContents<'a>>, Error>>,
) -> Option<Result<Vec<ZipFileContents<'a>>, Error>>
    decreases outcomes.len(),
{
    if outcomes.len() == 0 {
        None
    } else {
        match verdict(pending, outcomes[0]) {
            Some(result) => Some(result),
            None => race_decides((pending - 1) as nat, outcomes.drop_first()),
        }
    }
}

/// The first success among `outcomes`, and `CannotDecrypt` if there is none.
pub open spec fn first_success<'a>(
    outcomes: Seq<Result<Vec<ZipFileContents<'a>>, Error>>,
) -> Result<Vec<ZipFileContents<'a>>, Error>
    decreases outcomes.len(),
{
    if outcomes.len() == 0 {
        Err(Error::CannotDecrypt)
    } else {
        match outcomes[0] {
            Ok(files) => Ok(files),
            Err(_) => first_success(outcomes.drop_first()),
        }
    }
}

/// A race in which every trial reports is decided, in whatever order the
/// trials end: by the first success that is reported, or, when the last trial
/// has failed too, by `CannotDecrypt`.
pub proof fn lemma_race_is_decided<'a>(outcomes: Seq<Result<Vec<ZipFileContents<'a>>, Error>>)
    requires
        outcomes.len() > 0,
    ensures
        race_decides(outcomes.len(), outcomes) == Some(first_success(outcomes)),
    decreases outcomes.len(),
{
    let rest = outcomes.drop_first();
    if outcomes[0] is Err {
        if rest.len() == 0 {
            assert(first_success(rest) == Err::<Vec<ZipFileContents<'a>>, Error>(
                Error::CannotDecrypt,
            ));
        } else {
            lemma_race_is_decided(rest);
        }
    }
}

/// What a run on the archive `bytes` with the caller's `list` returns.
///
/// Bytes that are no archive give the reader's error. Else the first password
/// of the trial set that solves the archive gives its files, and
/// `CannotDecrypt` comes back if none does.
pub open spec fn run_returns(
    bytes: Seq<u8>,
    list: Option<Seq<Seq<char>>>,
    result: Result<Vec<ZipFileContents<'static>>, Error>,
) -> bool {
    if !archive_parses(bytes) {
        result matches Err(Error::Zip(_))
    } else {
        match winner(bytes, candidate_set(list)) {
            Some(password) => result matches Ok(files) && files.deep_view() == extraction(
                bytes,
                password,
            ),
            None => result matches Err(Error::CannotDecrypt),
        }
    }
}

/// Extracts all files from the zip archive held in `zip_file`, which may be
/// password protected or not.
///
/// The passwords of `password_list` and the empty password are tried one
/// after the other, in ascending order of their bytes, each on a handle of its
/// own. The first that decodes every entry gives the result, also where a
/// later one would decode them too.
pub fn from_zipfile(zip_file: &[u8], password_list: Option<Vec<String>>) -> (result: Result<
    Vec<ZipFileContents<'static>>,
    Error,
>)
    ensures
        run_returns(zip_file@, password_list.deep_view(), result),
{
    let candidates = normalize_passwords(password_list);
    if let Err(reason) = open_archive(zip_file) {
        return Err(Error::Zip(reason));
    }
    let ghost set = candidates.deep_view();
    let mut race = Race::new(candidates.len());
    let mut next: usize = 0;
    assert(set.skip(0) =~= set);
    while next < candidates.len()
        invariant
            archive_parses(zip_file@),
            set == candidates.deep_view(),
            set == candidate_set(password_list.deep_view()),
            next <= candidates.len(),
            race.pending() == candidates.len() - next,
            winner(zip_file@, set) == winner(zip_file@, set.skip(next as int)),
        decreases candidates.len() - next,
    {
        let ghost rest = set.skip(next as int);
        assert(rest[0] == candidates[next as int]@);
        assert(rest.drop_first() =~= set.skip(next + 1));
        assert(winner(zip_file@, rest) == if unlocks(zip_file@, rest[0]) {
            Some(rest[0])
        } else {
            winner(zip_file@, set.skip(next + 1))
        });
        let outcome = try_password(zip_file, candidates[next].as_str());
        match race.report(outcome) {
            Some(result) => {
                assert(winner(zip_file@, set.skip(candidates.len() as int)) is None);
                return result;
            },
            None => {},
        }
        next = next + 1;
    }
    assert(winner(zip_file@, set.skip(next as int)) is None);
    Err(Error::CannotDecrypt)
}

/// What `winner` picks: a password of the set that solves the archive and
/// that no solving password stands before; and none only where no password
/// of the set solves it.
pub proof fn lemma_winner(bytes: Seq<u8>, set: Seq<Seq<char>>)
    ensures
        match winner(bytes, set) {
            Some(password) => exists|i: int|
                0 <= i < set.len() && #[trigger] set[i] == password && unlocks(bytes, password)
                    && forall|j: int| 0 <= j < i ==> !unlocks(bytes, #[trigger] set[j]),
            None => forall|i: int| 0 <= i < set.len() ==> !unlocks(bytes, #[trigger] set[i]),
        },
    decreases set.len(),
{
    if set.len() == 0 {
    } else if unlocks(bytes, set[0]) {
        assert(set[0] == set[0]);
    } else {
        let rest = set.drop_first();
        lemma_winner(bytes, rest);
        match winner(bytes, rest) {
            Some(password) => {
                let i = choose|i: int|
                    0 <= i < rest.len() && #[trigger] rest[i] == password && unlocks(
                        bytes,
                        password,
                    ) && forall|j: int| 0 <= j < i ==> !unlocks(bytes, #[trigger] rest[j]);
                assert(set[i + 1] == password);
                assert forall|j: int| 0 <= j < i + 1 implies !unlocks(bytes, #[trigger] set[j]) by {
                    if j > 0 {
                        assert(rest[j - 1] == set[j]);
                    }
                }
            },
            None => {
                assert forall|i: int| 0 <= i < set.len() implies !unlocks(
                    bytes,
                    #[trigger] set[i],
                ) by {
                    if i > 0 {
                        assert(rest[i - 1] == set[i]);
                    }
                }
            },
        }
    }
}

/// A run succeeds exactly where some candidate of the list solves the
/// archive, the sentinel counted among them. It then returns what the first
/// such candidate gives, in the order of the trial set; and where none solves
/// the archive, it returns `CannotDecrypt`.
pub proof fn lemma_run_decides(
    bytes: Seq<u8>,
    list: Option<Seq<Seq<char>>>,
    result: Result<Vec<ZipFileContents<'static>>, Error>,
)
    requires
        archive_parses(bytes),
        run_returns(bytes, list, result),
    ensures
        result is Ok <==> exists|p: Seq<char>| is_candidate(list, p) && #[trigger] unlocks(bytes, p),
        result matches Ok(files) ==> exists|p: Seq<char>|
            is_candidate(list, p) && #[trigger] unlocks(bytes, p) && files.deep_view()
                == extraction(bytes, p) && forall|q: Seq<char>|
                is_candidate(list, q) && #[trigger] unlocks(bytes, q) ==> q == p || precedes(p, q),
        result matches Err(reason) ==> reason is CannotDecrypt,
{
    let set = candidate_set(list);
    lemma_candidate_set(list);
    lemma_winner(bytes, set);
    match winner(bytes, set) {
        Some(p) => {
            let i = choose|i: int|
                0 <= i < set.len() && #[trigger] set[i] == p && unlocks(bytes, p) && forall|j: int|
                    0 <= j < i ==> !unlocks(bytes, #[trigger] set[j]);
            assert(set.contains(p));
            assert(is_candidate(list, p));
            assert forall|q: Seq<char>|
                is_candidate(list, q) && #[trigger] unlocks(bytes, q) implies q == p || precedes(
                p,
                q,
            ) by {
                assert(set.contains(q));
                let k = choose|k: int| 0 <= k < set.len() && set[k] == q;
                if k < i {
                    assert(!unlocks(bytes, set[k]));
                }
            }
        },
        None => {
            assert forall|p: Seq<char>| is_candidate(list, p) implies !unlocks(bytes, p) by {
                assert(set.contains(p));
                let k = choose|k: int| 0 <= k < set.len() && set[k] == p;
                assert(!unlocks(bytes, set[k]));
            }
        },
    }
}

/// Where the empty password solves the archive, the run returns what the
/// empty password gives, with or without a list: one file for each entry, in
/// the order of the entries, and none that records a password.
pub proof fn lemma_sentinel_wins(
    bytes: Seq<u8>,
    list: Option<Seq<Seq<char>>>,
    result: Result<Vec<ZipFileContents<'static>>, Error>,
)
    requires
        archive_parses(bytes),
        unlocks(bytes, sentinel()),
        run_returns(bytes, list, result),
    ensures
        result matches Ok(files) && files.deep_view() == extraction(bytes, sentinel()),
        result->Ok_0.len() == entry_count(bytes),
        forall|i: int|
            0 <= i < entry_count(bytes) ==> (#[trigger] result->Ok_0[i])@.zip_password is None,
{
    let set = candidate_set(list);
    lemma_candidate_set(list);
    lemma_sentinel_first(list, set);
    assert(winner(bytes, set) == Some(sentinel()));
    let files = result->Ok_0;
    assert(files.deep_view().len() == entry_count(bytes));
    assert forall|i: int| 0 <= i < entry_count(bytes) implies (#[trigger] files[i])@.zip_password is None by {
        assert(files.deep_view()[i] == files[i]@);
    }
}

/// Without a list the run tries the empty password and no other: it returns
/// what the empty password gives if that solves the archive, and
/// `CannotDecrypt` if not.
pub proof fn lemma_run_without_list(
    bytes: Seq<u8>,
    result: Result<Vec<ZipFileContents<'static>>, Error>,
)
    requires
        archive_parses(bytes),
        run_returns(bytes, None, result),
    ensures
        unlocks(bytes, sentinel()) ==> (result matches Ok(files) && files.deep_view() == extraction(
            bytes,
            sentinel(),
        )),
        !unlocks(bytes, sentinel()) ==> result matches Err(Error::CannotDecrypt),
{
    lemma_no_list();
    let set = seq![sentinel()];
    assert(set[0] == sentinel());
    assert(winner(bytes, set.drop_first()) is None);
}

/// On an archive that the empty password does not solve, a run with one
/// password succeeds exactly where that password solves the archive. Every
/// file that it returns then records that password; and a password that does
/// not solve the archive gives `CannotDecrypt`.
pub proof fn lemma_run_with_one_password(
    bytes: Seq<u8>,
    password: Seq<char>,
    result: Result<Vec<ZipFileContents<'static>>, Error>,
)
    requires
        archive_parses(bytes),
        !unlocks(bytes, sentinel()),
        run_returns(bytes, Some(seq![password]), result),
    ensures
        unlocks(bytes, password) ==> (result matches Ok(files) && files.deep_view() == extraction(
            bytes,
            password,
        )),
        unlocks(bytes, password) ==> result->Ok_0.len() == entry_count(bytes) && forall|i: int|
            0 <= i < entry_count(bytes) ==> (#[trigger] result->Ok_0[i])@.zip_password == Some(
                password,
            ),
        !unlocks(bytes, password) ==> result matches Err(Error::CannotDecrypt),
{
    lemma_single_password(password);
    let set = candidate_set(Some(seq![password]));
    if password == sentinel() {
        assert(set[0] == sentinel());
        assert(winner(bytes, set.drop_first()) is None);
    } else {
        let rest = set.drop_first();
        assert(set[0] == sentinel());
        assert(rest[0] == password);
        assert(winner(bytes, rest.drop_first()) is None);
        assert(winner(bytes, rest) == if unlocks(bytes, password) {
            Some(password)
        } else {
            None
        });
        if unlocks(bytes, password) {
            let files = result->Ok_0;
            assert(password.len() > 0) by {
                if password.len() == 0 {
                    assert(password =~= sentinel());
                }
            }
            assert(files.deep_view().len() == entry_count(bytes));
            assert forall|i: int| 0 <= i < entry_count(bytes) implies (#[trigger] files[i])@.zip_password
                == Some(password) by {
                assert(files.deep_view()[i] == files[i]@);
            }
        }
    }
}

/// Two runs on the same archive with the same list end alike: both fail in
/// the same way, or both return the same files, with the same names, bytes and
/// passwords, in the same order.
pub proof fn lemma_run_repeatable(
    bytes: Seq<u8>,
    list: Option<Seq<Seq<char>>>,
    first: Result<Vec<ZipFileContents<'static>>, Error>,
    second: Result<Vec<ZipFileContents<'static>>, Error>,
)
    requires
        run_returns(bytes, list, first),
        run_returns(bytes, list, second),
    ensures
        first is Ok <==> second is Ok,
        first is Ok ==> first->Ok_0.deep_view() == second->Ok_0.deep_view(),
        first is Err ==> (first->Err_0 is Zip <==> second->Err_0 is Zip),
        first is Err ==> (first->Err_0 is CannotDecrypt <==> second->Err_0 is CannotDecrypt),
        first is Err ==> !(first->Err_0 is Io),
{
}

} // verus!
