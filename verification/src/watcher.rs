//! The set of mailbox summary files that is monitored, and their unread total.

use crate::mork::sat_add;
use crate::path::{path_eq, paths_equal};
use crate::text::texts;
use vstd::prelude::*;

verus! {

/// Counts added with saturation, in order.
pub open spec fn sat_total(counts: Seq<u32>) -> u32
    decreases counts.len(),
{
    if counts.len() == 0 {
        0
    } else {
        sat_add(sat_total(counts.drop_last()), counts.last())
    }
}

/// The exact sum of counts.
pub open spec fn sum(counts: Seq<u32>) -> int
    decreases counts.len(),
{
    if counts.len() == 0 {
        0
    } else {
        sum(counts.drop_last()) + counts.last()
    }
}

/// Whether `id` names the same path as one of `ids`.
pub open spec fn seen(ids: Seq<Seq<char>>, id: Seq<char>) -> bool {
    exists|k: int| 0 <= k < ids.len() && path_eq(id, #[trigger] ids[k])
}

/// The files kept, with their identities, after reading the first `files.len()` files:
/// a file is kept unless its identity names a path already kept.
pub open spec fn dedup(files: Seq<Seq<char>>, ids: Seq<Seq<char>>) -> (Seq<Seq<char>>, Seq<Seq<char>>)
    decreases files.len(),
{
    if files.len() == 0 || ids.len() < files.len() {
        (Seq::empty(), Seq::empty())
    } else {
        let n = files.len() - 1;
        let before = dedup(files.drop_last(), ids.take(n));
        if seen(before.1, ids[n]) {
            before
        } else {
            (before.0.push(files[n]), before.1.push(ids[n]))
        }
    }
}

/// The monitored summary files, each mailbox once.
pub struct MailWatcher {
    msf_files: Vec<String>,
}

impl MailWatcher {
    /// The monitored files, in the order given.
    pub closed spec fn files(&self) -> Seq<Seq<char>> {
        texts(self.msf_files@)
    }

    /// The monitored files as strings.
    pub closed spec fn file_strings(&self) -> Seq<String> {
        self.msf_files@
    }

    /// Keeps each mailbox once. Profile discovery can encounter the same file
    /// through an alias or symlink, so files are compared by identity:
    /// `identity_of` gives a file's canonical path, or the path itself when it
    /// has none. The first file of each identity is kept.
    pub fn new<F: Fn(&String) -> String>(
        msf_files: Vec<String>,
        _poll_interval_secs: u64,
        identity_of: F,
    ) -> (r: Self)
        requires
            forall|i: int| 0 <= i < msf_files@.len() ==> call_requires(identity_of, (&msf_files@[i],)),
        ensures
            exists|ids: Seq<String>|
                {
                    &&& ids.len() == msf_files@.len()
                    &&& forall|i: int|
                        0 <= i < ids.len() ==> call_ensures(
                            identity_of,
                            (&msf_files@[i],),
                            #[trigger] ids[i],
                        )
                    &&& r.files() == dedup(texts(msf_files@), texts(ids)).0
                },
    {
        let mut kept: Vec<String> = Vec::new();
        let mut kept_ids: Vec<String> = Vec::new();
        let ghost mut ids: Seq<String> = Seq::empty();
        let ghost files = texts(msf_files@);
        let mut i: usize = 0;
        while i < msf_files.len()
            invariant
                i <= msf_files@.len(),
                files == texts(msf_files@),
                forall|j: int| 0 <= j < msf_files@.len() ==> call_requires(identity_of, (&msf_files@[j],)),
                ids.len() == i,
                forall|j: int|
                    0 <= j < i ==> call_ensures(identity_of, (&msf_files@[j],), #[trigger] ids[j]),
                (texts(kept@), texts(kept_ids@)) == dedup(files.take(i as int), texts(ids)),
            decreases msf_files@.len() - i,
        {
            let id = identity_of(&msf_files[i]);
            let ghost before = (texts(kept@), texts(kept_ids@));
            assert(files.take(i + 1).drop_last() =~= files.take(i as int));
            assert(texts(ids.push(id)).take(i as int) =~= texts(ids));
            let mut k: usize = 0;
            let mut dup = false;
            while k < kept_ids.len()
                invariant_except_break
                    !dup,
                invariant
                    k <= kept_ids@.len(),
                    forall|q: int| 0 <= q < k ==> !path_eq(id@, #[trigger] texts(kept_ids@)[q]),
                ensures
                    !dup ==> forall|q: int|
                        0 <= q < kept_ids@.len() ==> !path_eq(id@, #[trigger] texts(kept_ids@)[q]),
                    dup ==> seen(texts(kept_ids@), id@),
                decreases kept_ids@.len() - k,
            {
                if paths_equal(id.as_str(), kept_ids[k].as_str()) {
                    dup = true;
                    assert(path_eq(id@, texts(kept_ids@)[k as int]));
                    break;
                }
                k = k + 1;
            }
            proof {
                ids = ids.push(id);
            }
            if !dup {
                assert(!seen(texts(kept_ids@), id@));
                kept.push(String::from_str(msf_files[i].as_str()));
                kept_ids.push(id);
                assert(texts(kept@) =~= before.0.push(files[i as int]));
                assert(texts(kept_ids@) =~= before.1.push(texts(ids)[i as int]));
            } else {
                assert(seen(texts(kept_ids@), texts(ids)[i as int]));
            }
            i = i + 1;
        }
        assert(files.take(msf_files@.len() as int) =~= files);
        MailWatcher { msf_files: kept }
    }

    /// The monitored files.
    pub fn msf_files(&self) -> (r: &Vec<String>)
        ensures
            texts(r@) == self.files(),
    {
        &self.msf_files
    }

    /// Get total unread count across all monitored files right now;
    /// `unread_of` gives the unread count of one summary file.
    pub fn get_unread_count<F: Fn(&String) -> u32>(&self, unread_of: F) -> (r: u32)
        requires
            forall|i: int|
                0 <= i < self.file_strings().len() ==> call_requires(
                    unread_of,
                    (&self.file_strings()[i],),
                ),
        ensures
            exists|counts: Seq<u32>|
                {
                    &&& counts.len() == self.files().len()
                    &&& forall|i: int|
                        0 <= i < counts.len() ==> call_ensures(
                            unread_of,
                            (&self.file_strings()[i],),
                            #[trigger] counts[i],
                        )
                    &&& r == sat_total(counts)
                },
    {
        let mut counts: Vec<u32> = Vec::new();
        let mut i: usize = 0;
        assert(self.file_strings() == self.msf_files@);
        while i < self.msf_files.len()
            invariant
                i <= self.msf_files@.len(),
                counts@.len() == i,
                forall|j: int| 0 <= j < self.msf_files@.len() ==> call_requires(unread_of, (&self.msf_files@[j],)),
                forall|j: int|
                    0 <= j < i ==> call_ensures(unread_of, (&self.msf_files@[j],), #[trigger] counts@[j]),
            decreases self.msf_files@.len() - i,
        {
            assert(self.file_strings() == self.msf_files@);
            let c = unread_of(&self.msf_files[i]);
            counts.push(c);
            i = i + 1;
        }
        assert(counts@.len() == self.files().len());
        saturating_total(&counts)
    }
}

/// Adds counts, saturating at `u32::MAX` instead of wrapping.
pub fn saturating_total(counts: &Vec<u32>) -> (r: u32)
    ensures
        r == sat_total(counts@),
{
    let mut total: u32 = 0;
    let mut i: usize = 0;
    assert(counts@.take(0) =~= Seq::<u32>::empty());
    while i < counts.len()
        invariant
            i <= counts@.len(),
            total == sat_total(counts@.take(i as int)),
        decreases counts@.len() - i,
    {
        assert(counts@.take(i + 1).drop_last() =~= counts@.take(i as int));
        total = total.saturating_add(counts[i]);
        i = i + 1;
    }
    assert(counts@.take(counts@.len() as int) =~= counts@);
    total
}

/// Law of the unread total: it is the exact sum of the counts, capped at
/// `u32::MAX`; it never wraps.
pub proof fn total_is_capped_sum(counts: Seq<u32>)
    ensures
        sat_total(counts) as int == if sum(counts) > u32::MAX {
            u32::MAX as int
        } else {
            sum(counts)
        },
    decreases counts.len(),
{
    if counts.len() > 0 {
        total_is_capped_sum(counts.drop_last());
    }
}


/// Law of the watcher: each mailbox is counted once. No kept identity names the
/// same path as an earlier kept one, and every file's identity is kept or names
/// the same path as a kept one.
pub proof fn each_mailbox_kept_once(files: Seq<Seq<char>>, ids: Seq<Seq<char>>)
    requires
        ids.len() == files.len(),
    ensures
        ({
            let kept = dedup(files, ids).1;
            &&& forall|i: int, j: int|
                0 <= i < j < kept.len() ==> !path_eq(#[trigger] kept[j], #[trigger] kept[i])
            &&& forall|i: int|
                0 <= i < ids.len() ==> exists|k: int|
                    0 <= k < kept.len() && (kept[k] == #[trigger] ids[i] || path_eq(
                        ids[i],
                        kept[k],
                    ))
        }),
    decreases files.len(),
{
    if files.len() > 0 {
        let n = files.len() - 1;
        let before = dedup(files.drop_last(), ids.take(n));
        each_mailbox_kept_once(files.drop_last(), ids.take(n));
        let kept = dedup(files, ids).1;
        if seen(before.1, ids[n]) {
            assert forall|i: int| 0 <= i < ids.len() implies exists|k: int|
                0 <= k < kept.len() && (kept[k] == #[trigger] ids[i] || path_eq(ids[i], kept[k])) by {
                if i < n {
                    assert(ids.take(n)[i] == ids[i]);
                }
            }
        } else {
            assert(kept == before.1.push(ids[n]));
            assert forall|i: int, j: int| 0 <= i < j < kept.len() implies !path_eq(
                #[trigger] kept[j],
                #[trigger] kept[i],
            ) by {
                if j == before.1.len() {
                    assert(kept[i] == before.1[i]);
                } else {
                    assert(kept[i] == before.1[i] && kept[j] == before.1[j]);
                }
            }
            assert forall|i: int| 0 <= i < ids.len() implies exists|k: int|
                0 <= k < kept.len() && (kept[k] == #[trigger] ids[i] || path_eq(ids[i], kept[k])) by {
                if i < n {
                    assert(ids.take(n)[i] == ids[i]);
                    let k = choose|k: int|
                        0 <= k < before.1.len() && (before.1[k] == ids.take(n)[i] || path_eq(
                            ids.take(n)[i],
                            before.1[k],
                        ));
                    assert(kept[k] == before.1[k]);
                } else {
                    assert(kept[before.1.len() as int] == ids[i]);
                }
            }
        }
    }
}

} // verus!
