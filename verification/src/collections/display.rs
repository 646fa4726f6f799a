//! The status of a backup collection as text, in the style of duplicity's
//! `collection-status`, with times in the local time zone.

use vstd::prelude::*;
use crate::collections::{
    BackupChain, BackupChainView, BackupSet, BackupSetView, Collections, SignatureChain,
    SignatureChainView, Type,
};
use crate::text::{decimal_string, decimal_text, pad_left, pad_right, push_pad_left, push_pad_right};
use crate::timefmt::{TimeDisplay, Timespec, local_clock_of, local_time_text_of, ts_displayable, spec_pretty_text};

verus! {

/// The name of the kind of a set.
pub open spec fn set_type_text(t: Type) -> Seq<char> {
    match t {
        Type::Full { .. } => "Full"@,
        Type::Inc { .. } => "Incremental"@,
    }
}

/// The line that shows a set, given the text of its time: kind, time and
/// number of volumes, in columns.
pub open spec fn set_line(s: BackupSetView, time_text: Seq<char>) -> Seq<char> {
    pad_right(set_type_text(s.tp), 20) + " "@ + pad_right(time_text, 13) + " "@ + pad_left(
        decimal_text(s.volumes.len()),
        12,
    )
}

/// The text of a time in the local time zone (see `PrettyDisplay`): the
/// pretty text, for some current year, of the time broken down at the
/// offset of the local zone.
fn local_time_text(t: Timespec) -> (r: String)
    requires
        ts_displayable(t),
    ensures
        local_time_text_of(t, r@),
{
    let d = t.into_local_display();
    let r = d.to_display_string();
    proof {
        let y = choose|y: i32| r@ == spec_pretty_text(y, d@);
        assert(local_clock_of(t, d@) && r@ == spec_pretty_text(y, d@));
    }
    r
}

impl BackupSet {
    /// The line that shows the set, given the text of its time.
    pub fn line_with_time(&self, time_text: &str) -> (r: String)
        ensures
            r@ == set_line(self@, time_text@),
    {
        proof {
            reveal_strlit("Full");
            reveal_strlit("Incremental");
            reveal_strlit(" ");
        }
        let tp = if self.is_full() {
            "Full"
        } else {
            "Incremental"
        };
        let mut out = String::new();
        push_pad_right(&mut out, tp, 20);
        out.append(" ");
        push_pad_right(&mut out, time_text, 13);
        out.append(" ");
        let n = decimal_string(self.num_volumes());
        push_pad_left(&mut out, n.as_str(), 12);
        assert(out@ =~= set_line(self@, time_text@));
        out
    }

    /// The line that shows the set, with its end time in the local time
    /// zone.
    pub fn to_display_string(&self) -> (r: String)
        requires
            ts_displayable(self@.tp.spec_end_time()),
        ensures
            exists|t: Seq<char>| local_time_text_of(self@.tp.spec_end_time(), t) && r@ == set_line(self@, t),
    {
        let t = local_time_text(self.end_time());
        self.line_with_time(t.as_str())
    }
}

/// The sets of a chain, the full one first.
pub open spec fn chain_sets(c: BackupChainView) -> Seq<BackupSetView> {
    seq![c.fullset] + c.incsets
}

/// The number of volumes of sets.
pub open spec fn total_volumes(sets: Seq<BackupSetView>) -> nat
    decreases sets.len(),
{
    if sets.len() == 0 {
        0
    } else {
        total_volumes(sets.drop_last()) + sets.last().volumes.len()
    }
}

/// The lines of sets, each with the text of its time, each ended by a
/// newline.
pub open spec fn sets_text(sets: Seq<BackupSetView>, times: Seq<Seq<char>>) -> Seq<char>
    decreases sets.len(),
{
    if sets.len() == 0 {
        Seq::empty()
    } else {
        sets_text(sets.drop_last(), times) + set_line(sets.last(), times[sets.len() - 1]) + "\n"@
    }
}

/// The header of the columns of the set lines.
pub open spec fn columns_header() -> Seq<char> {
    pad_right("Type of backup set:"@, 20) + " "@ + pad_right("Time:"@, 13) + " "@ + pad_left(
        "Num volumes:\n"@,
        12,
    )
}

/// The text that shows a chain, given the texts of its start and end times
/// and of the times of its sets.
pub open spec fn chain_text(c: BackupChainView, start: Seq<char>, end: Seq<char>, times: Seq<Seq<char>>) -> Seq<char> {
    "Chain start time: "@ + start + "\n"@ + "Chain end time: "@ + end + "\n"@
        + "Number of contained backup sets: "@ + decimal_text(c.incsets.len() + 1) + "\n"@
        + "Total number of contained volumes: "@ + decimal_text(total_volumes(chain_sets(c))) + "\n"@
        + columns_header() + sets_text(chain_sets(c), times)
}

/// The text of a chain tells, after its start and end times, how many
/// backup sets it contains: all its sets, the full one included, which
/// are the sets whose lines end the text.
pub proof fn law_chain_text_counts_sets(c: BackupChainView, start: Seq<char>, end: Seq<char>, times: Seq<Seq<char>>)
    ensures
        chain_sets(c).len() == c.incsets.len() + 1,
        exists|middle: Seq<char>|
            chain_text(c, start, end, times) == "Chain start time: "@ + start + "\n"@ + "Chain end time: "@ + end
                + "\n"@ + "Number of contained backup sets: "@ + decimal_text(chain_sets(c).len()) + "\n"@
                + middle + sets_text(chain_sets(c), times),
{
    let middle = "Total number of contained volumes: "@ + decimal_text(total_volumes(chain_sets(c))) + "\n"@
        + columns_header();
    assert(chain_text(c, start, end, times) =~= "Chain start time: "@ + start + "\n"@ + "Chain end time: "@ + end
        + "\n"@ + "Number of contained backup sets: "@ + decimal_text(chain_sets(c).len()) + "\n"@ + middle
        + sets_text(chain_sets(c), times));
}

/// The times of a chain can be broken down into calendar dates.
pub open spec fn chain_displayable(c: BackupChainView) -> bool {
    &&& ts_displayable(c.start_time)
    &&& ts_displayable(c.end_time)
    &&& forall|i: int|
        0 <= i < chain_sets(c).len() ==> ts_displayable(
            (#[trigger] chain_sets(c)[i]).tp.spec_end_time(),
        )
}

/// The text shows the chain, with texts of its times in the local time
/// zone.
pub open spec fn shows_chain(text: Seq<char>, c: BackupChainView) -> bool {
    exists|start: Seq<char>, end: Seq<char>, times: Seq<Seq<char>>|
        {
            &&& times.len() == chain_sets(c).len()
            &&& local_time_text_of(c.start_time, start)
            &&& local_time_text_of(c.end_time, end)
            &&& forall|i: int|
                0 <= i < times.len() ==> local_time_text_of(chain_sets(c)[i].tp.spec_end_time(), #[trigger] times[i])
            &&& text == chain_text(c, start, end, times)
        }
}

proof fn lemma_total_volumes_prefix(sets: Seq<BackupSetView>, n: int)
    requires
        0 <= n <= sets.len(),
    ensures
        total_volumes(sets.take(n)) <= total_volumes(sets),
    decreases sets.len(),
{
    if n < sets.len() {
        assert(sets.take(n) =~= sets.drop_last().take(n));
        lemma_total_volumes_prefix(sets.drop_last(), n);
    } else {
        assert(sets.take(n) =~= sets);
    }
}

proof fn lemma_sets_text_prefix(sets: Seq<BackupSetView>, times: Seq<Seq<char>>, n: int)
    requires
        0 <= n < sets.len(),
    ensures
        sets_text(sets.take(n + 1), times) == sets_text(sets.take(n), times) + set_line(sets[n], times[n])
            + "\n"@,
{
    assert(sets.take(n + 1).drop_last() =~= sets.take(n));
}

impl BackupChain {
    /// The text that shows the chain, with its times in the local time
    /// zone: its times, sets and volumes, then a line for each set.
    pub fn to_display_string(&self) -> (r: String)
        requires
            chain_displayable(self@),
            total_volumes(chain_sets(self@)) <= usize::MAX,
            self@.incsets.len() < usize::MAX,
        ensures
            shows_chain(r@, self@),
    {
        let ghost sets = chain_sets(self@);
        proof {
            reveal_strlit("Chain start time: ");
            reveal_strlit("Chain end time: ");
            reveal_strlit("Number of contained backup sets: ");
            reveal_strlit("Total number of contained volumes: ");
            reveal_strlit("\n");
            reveal_strlit("Type of backup set:");
            reveal_strlit("Time:");
            reveal_strlit("Num volumes:\n");
            reveal_strlit(" ");
        }
        let n = self.num_inc_sets() + 1;
        let mut vols: usize = 0;
        let mut i: usize = 0;
        assert(sets.take(0) =~= Seq::<BackupSetView>::empty());
        while i < n
            invariant
                i <= n,
                n == sets.len(),
                sets == chain_sets(self@),
                total_volumes(sets) <= usize::MAX,
                vols == total_volumes(sets.take(i as int)),
            decreases n - i,
        {
            let set = match self.nth_set(i) {
                Some(s) => s,
                None => {
                    return String::new();
                },
            };
            assert(set@ == sets[i as int]);
            proof {
                assert(sets.take(i + 1).drop_last() =~= sets.take(i as int));
                lemma_total_volumes_prefix(sets, i + 1);
            }
            vols = vols + set.num_volumes();
            i = i + 1;
        }
        assert(sets.take(n as int) =~= sets);
        let start = local_time_text(self.start_time());
        let end = local_time_text(self.end_time());
        let mut out = String::new();
        out.append("Chain start time: ");
        out.append(start.as_str());
        out.append("\n");
        out.append("Chain end time: ");
        out.append(end.as_str());
        out.append("\n");
        out.append("Number of contained backup sets: ");
        let ns = decimal_string(n);
        out.append(ns.as_str());
        out.append("\n");
        out.append("Total number of contained volumes: ");
        let vs = decimal_string(vols);
        out.append(vs.as_str());
        out.append("\n");
        push_pad_right(&mut out, "Type of backup set:", 20);
        out.append(" ");
        push_pad_right(&mut out, "Time:", 13);
        out.append(" ");
        push_pad_left(&mut out, "Num volumes:\n", 12);
        let ghost head = out@;
        let ghost mut times: Seq<Seq<char>> = Seq::empty();
        let mut k: usize = 0;
        while k < n
            invariant
                k <= n,
                n == sets.len(),
                sets == chain_sets(self@),
                chain_displayable(self@),
                times.len() == k,
                forall|m: int|
                    0 <= m < k ==> local_time_text_of(sets[m].tp.spec_end_time(), #[trigger] times[m]),
                out@ == head + sets_text(sets.take(k as int), times),
            decreases n - k,
        {
            let set = match self.nth_set(k) {
                Some(s) => s,
                None => {
                    return String::new();
                },
            };
            assert(set@ == sets[k as int]);
            assert(ts_displayable(sets[k as int].tp.spec_end_time()));
            let line = set.to_display_string();
            let ghost t = choose|t: Seq<char>|
                local_time_text_of(set@.tp.spec_end_time(), t) && line@ == set_line(set@, t);
            let ghost prev = times;
            proof {
                times = times.push(t);
                assert forall|m: int| 0 <= m < k + 1 implies local_time_text_of(
                    sets[m].tp.spec_end_time(),
                    #[trigger] times[m],
                ) by {
                    if m < k {
                        assert(times[m] == prev[m]);
                    }
                }
                assert forall|m: int| 0 <= m <= k implies sets_text(sets.take(m), times) == sets_text(sets.take(m), prev) by {
                    lemma_sets_text_same(sets.take(m), prev, times);
                }
            }
            out.append(line.as_str());
            out.append("\n");
            proof {
                lemma_sets_text_prefix(sets, times, k as int);
                assert(sets_text(sets.take(k as int), times) == sets_text(sets.take(k as int), prev));
            }
            k = k + 1;
        }
        assert(sets.take(n as int) =~= sets);
        assert(out@ =~= chain_text(self@, start@, end@, times));
        assert(local_time_text_of(self@.start_time, start@));
        assert(local_time_text_of(self@.end_time, end@));
        out
    }
}

/// The text of sets does not depend on the times of sets that are not
/// there.
proof fn lemma_sets_text_same(sets: Seq<BackupSetView>, a: Seq<Seq<char>>, b: Seq<Seq<char>>)
    requires
        sets.len() <= a.len(),
        sets.len() <= b.len(),
        forall|i: int| 0 <= i < sets.len() ==> a[i] == b[i],
    ensures
        sets_text(sets, a) == sets_text(sets, b),
    decreases sets.len(),
{
    if sets.len() > 0 {
        lemma_sets_text_same(sets.drop_last(), a, b);
    }
}

/// The texts joined.
pub open spec fn concat(texts: Seq<Seq<char>>) -> Seq<char>
    decreases texts.len(),
{
    if texts.len() == 0 {
        Seq::empty()
    } else {
        concat(texts.drop_last()) + texts.last()
    }
}

impl Collections {
    /// The text that shows the backup chains, one after the other (see
    /// `BackupChain::to_display_string`).
    pub fn to_display_string(&self) -> (r: String)
        requires
            forall|i: int|
                0 <= i < self@.backup_chains.len() ==> {
                    let c = #[trigger] self@.backup_chains[i];
                    &&& chain_displayable(c)
                    &&& total_volumes(chain_sets(c)) <= usize::MAX
                    &&& c.incsets.len() < usize::MAX
                },
        ensures
            exists|texts: Seq<Seq<char>>|
                {
                    &&& texts.len() == self@.backup_chains.len()
                    &&& forall|i: int| 0 <= i < texts.len() ==> #[trigger] shows_chain(texts[i], self@.backup_chains[i])
                    &&& r@ == concat(texts)
                },
    {
        let n = self.num_backup_chains();
        let mut out = String::new();
        let ghost mut texts: Seq<Seq<char>> = Seq::empty();
        let mut i: usize = 0;
        while i < n
            invariant
                i <= n,
                n == self@.backup_chains.len(),
                forall|j: int|
                    0 <= j < self@.backup_chains.len() ==> {
                        let c = #[trigger] self@.backup_chains[j];
                        &&& chain_displayable(c)
                        &&& total_volumes(chain_sets(c)) <= usize::MAX
                        &&& c.incsets.len() < usize::MAX
                    },
                texts.len() == i,
                forall|j: int| 0 <= j < i ==> #[trigger] shows_chain(texts[j], self@.backup_chains[j]),
                out@ == concat(texts),
            decreases n - i,
        {
            let c = self.backup_chain(i);
            let t = c.to_display_string();
            let ghost prev = texts;
            proof {
                texts = texts.push(t@);
                assert(texts.drop_last() =~= prev);
                assert forall|j: int| 0 <= j < i + 1 implies #[trigger] shows_chain(texts[j], self@.backup_chains[j]) by {
                    if j < i {
                        assert(texts[j] == prev[j]);
                    }
                }
            }
            out.append(t.as_str());
            i = i + 1;
        }
        out
    }
}

/// The text that shows a signature chain, given the texts of its start and
/// end times: the times, then the names of its files, each on a line of
/// its own after a space.
pub open spec fn sig_chain_text(c: SignatureChainView, start: Seq<char>, end: Seq<char>) -> Seq<char> {
    "start time: "@ + start + ", end time: "@ + end + "\n "@ + c.fullsig.file_name + "\n"@ + inc_names_text(
        c.incsigs.map_values(|s: crate::collections::SignatureFileView| s.file_name),
    )
}

/// Names, each after a space and ended by a newline.
pub open spec fn inc_names_text(names: Seq<Seq<char>>) -> Seq<char>
    decreases names.len(),
{
    if names.len() == 0 {
        Seq::empty()
    } else {
        inc_names_text(names.drop_last()) + " "@ + names.last() + "\n"@
    }
}

impl SignatureChain {
    /// The text that shows the chain, with its times in the local time
    /// zone.
    pub fn to_display_string(&self) -> (r: String)
        requires
            ts_displayable(self@.fullsig.time),
            ts_displayable(
                if self@.incsigs.len() > 0 {
                    self@.incsigs.last().time
                } else {
                    self@.fullsig.time
                },
            ),
        ensures
            exists|start: Seq<char>, end: Seq<char>|
                {
                    &&& local_time_text_of(self@.fullsig.time, start)
                    &&& local_time_text_of(crate::collections::sig_chain_end(self@), end)
                    &&& r@ == sig_chain_text(self@, start, end)
                },
    {
        proof {
            reveal_strlit("start time: ");
            reveal_strlit(", end time: ");
            reveal_strlit("\n ");
            reveal_strlit("\n");
            reveal_strlit(" ");
        }
        let ghost names = self@.incsigs.map_values(|s: crate::collections::SignatureFileView| s.file_name);
        let st = self.start_time();
        let et = self.end_time();
        let start = local_time_text(st);
        let end = local_time_text(et);
        let mut out = String::new();
        out.append("start time: ");
        out.append(start.as_str());
        out.append(", end time: ");
        out.append(end.as_str());
        out.append("\n ");
        out.append(self.full_signature().file_name.as_str());
        out.append("\n");
        let ghost head = out@;
        let n = self.num_inc_signatures();
        let mut i: usize = 0;
        assert(names.take(0) =~= Seq::<Seq<char>>::empty());
        while i < n
            invariant
                i <= n,
                n == self@.incsigs.len(),
                names == self@.incsigs.map_values(|s: crate::collections::SignatureFileView| s.file_name),
                out@ == head + inc_names_text(names.take(i as int)),
            decreases n - i,
        {
            let f = self.inc_signature(i);
            out.append(" ");
            out.append(f.file_name.as_str());
            out.append("\n");
            assert(names.take(i + 1).drop_last() =~= names.take(i as int));
            assert(names.take(i + 1).last() == f@.file_name);
            i = i + 1;
        }
        assert(names.take(n as int) =~= names);
        assert(out@ =~= sig_chain_text(self@, start@, end@));
        out
    }
}

} // verus!
