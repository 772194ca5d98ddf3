//! Reporting: the stable per-item and summary lines downstream tooling
//! matches on, and the outcome counts they carry.

use vstd::prelude::*;
use vstd::string::StringExecFns;

use crate::materialize::{MaterializedResult, MaterializedResultView, Outcome};
use crate::strutil::{dec_digits, u64_to_dec};

verus! {

/// How many results carry the given outcome.
pub open spec fn count_outcome(s: Seq<MaterializedResultView>, o: Outcome) -> int {
    s.filter(|m: MaterializedResultView| m.outcome == o).len() as int
}

/// Count the results with the given outcome.
pub fn outcome_count(results: &Vec<MaterializedResult>, outcome: Outcome) -> (r: usize)
    ensures
        r == count_outcome(results.deep_view(), outcome),
{
    let ghost views = results.deep_view();
    let ghost pred = |m: MaterializedResultView| m.outcome == outcome;
    let mut count: usize = 0;
    let mut i: usize = 0;
    proof {
        reveal(Seq::filter);
        assert(views.take(0) =~= Seq::<MaterializedResultView>::empty());
        assert(views.take(0).filter(pred) =~= Seq::<MaterializedResultView>::empty());
        vstd::std_specs::vec::axiom_spec_len(results);
    }
    while i < results.len()
        invariant
            i <= results.len(),
            views == results.deep_view(),
            pred == (|m: MaterializedResultView| m.outcome == outcome),
            count == views.take(i as int).filter(pred).len(),
            count <= i,
        decreases results.len() - i,
    {
        proof {
            crate::strutil::lemma_filter_take_one_more(views, i as int, pred);
            assert(views[i as int] == results.deep_view()[i as int]);
        }
        let matches_outcome: bool = match (results[i].outcome, outcome) {
            (Outcome::Downloaded, Outcome::Downloaded) => true,
            (Outcome::SkippedExisting, Outcome::SkippedExisting) => true,
            (Outcome::Built, Outcome::Built) => true,
            _ => false,
        };
        if matches_outcome {
            count = count + 1;
        }
        i = i + 1;
    }
    proof {
        assert(views.take(views.len() as int) =~= views);
    }
    count
}

/// The reported line for one result.
pub open spec fn item_line_spec(m: MaterializedResultView) -> Seq<char> {
    match m.outcome {
        Outcome::Downloaded => "Downloaded "@ + m.filename,
        Outcome::SkippedExisting => "Skipping "@ + m.filename + " (already exists)"@,
        Outcome::Built => " - "@ + m.filename,
    }
}

/// Render the reported line for one result.
pub fn item_line(result: &MaterializedResult) -> (r: String)
    ensures
        r@ == item_line_spec(result@),
{
    match result.outcome {
        Outcome::Downloaded => {
            let mut s = String::from_str("Downloaded ");
            s.append(result.filename.as_str());
            s
        },
        Outcome::SkippedExisting => {
            let mut s = String::from_str("Skipping ");
            s.append(result.filename.as_str());
            s.append(" (already exists)");
            s
        },
        Outcome::Built => {
            let mut s = String::from_str(" - ");
            s.append(result.filename.as_str());
            s
        },
    }
}

/// Render one line per result, in result order.
pub fn report_lines(results: &Vec<MaterializedResult>) -> (r: Vec<String>)
    ensures
        r.deep_view() == results.deep_view().map_values(
            |m: MaterializedResultView| item_line_spec(m),
        ),
{
    let ghost views = results.deep_view();
    let ghost goal = views.map_values(|m: MaterializedResultView| item_line_spec(m));
    let mut r: Vec<String> = Vec::new();
    let mut i: usize = 0;
    proof {
        assert(r.deep_view() =~= goal.take(0));
    }
    while i < results.len()
        invariant
            i <= results.len(),
            views == results.deep_view(),
            goal == views.map_values(|m: MaterializedResultView| item_line_spec(m)),
            r.deep_view() == goal.take(i as int),
        decreases results.len() - i,
    {
        proof {
            assert(views[i as int] == results.deep_view()[i as int]);
        }
        let ghost before = r.deep_view();
        let ghost prev = r@;
        let line = item_line(&results[i]);
        let ghost lv = line@;
        r.push(line);
        proof {
            assert(r@ == prev.push(line));
            assert(lv == item_line_spec(views[i as int]));
            assert(goal[i as int] == item_line_spec(views[i as int]));
            let now = r.deep_view();
            let goal_next = goal.take(i as int + 1);
            assert(goal.len() == views.len());
            assert(i < views.len());
            assert(now.len() == r@.len());
            assert(r@.len() == prev.len() + 1);
            assert(before.len() == prev.len());
            assert(before.len() == goal.take(i as int).len());
            assert(goal_next.len() == i + 1);
            assert(now.len() == goal_next.len());
            assert forall|j: int| 0 <= j < now.len() implies now[j] == goal_next[j] by {
                assert(now[j] == r@[j]@);
                assert(goal_next[j] == goal[j]);
                if j < before.len() {
                    assert(r@[j] == prev[j]);
                    assert(before[j] == prev[j]@);
                    assert(before[j] == goal.take(i as int)[j]);
                    assert(goal.take(i as int)[j] == goal[j]);
                } else {
                    assert(r@[j]@ == lv);
                    assert(j == i as int);
                }
            }
            assert(now =~= goal_next);
        }
        i = i + 1;
    }
    proof {
        assert(goal.take(goal.len() as int) =~= goal);
    }
    r
}

/// The plural suffix: empty for exactly one, an `s` otherwise.
pub open spec fn plural_suffix(count: nat) -> Seq<char> {
    if count == 1 {
        Seq::empty()
    } else {
        seq!['s']
    }
}

/// The download-mode summary line: the verb, the count, and the elapsed wall
/// time as rendered by the caller.
pub open spec fn download_summary_spec(count: nat, elapsed: Seq<char>) -> Seq<char> {
    "Downloaded "@ + dec_digits(count) + " package"@ + plural_suffix(count) + " in "@ + elapsed
}

/// Render the download-mode summary line.
pub fn download_summary(count: u64, elapsed: &str) -> (r: String)
    ensures
        r@ == download_summary_spec(count as nat, elapsed@),
{
    let mut s = String::from_str("Downloaded ");
    let digits = u64_to_dec(count);
    s.append(digits.as_str());
    s.append(" package");
    if count != 1 {
        s.append("s");
        proof {
            reveal_strlit("s");
            assert("s"@ =~= seq!['s']);
        }
    } else {
        proof {
            assert(plural_suffix(count as nat) =~= Seq::<char>::empty());
        }
    }
    s.append(" in ");
    s.append(elapsed);
    proof {
        assert(s@ =~= download_summary_spec(count as nat, elapsed@));
    }
    s
}

/// The build-mode summary line.
pub open spec fn build_summary_spec(count: nat, elapsed: Seq<char>) -> Seq<char> {
    "Successfully built "@ + dec_digits(count) + " wheel"@ + plural_suffix(count) + " in "@
        + elapsed
}

/// Render the build-mode summary line.
pub fn build_summary(count: u64, elapsed: &str) -> (r: String)
    ensures
        r@ == build_summary_spec(count as nat, elapsed@),
{
    let mut s = String::from_str("Successfully built ");
    let digits = u64_to_dec(count);
    s.append(digits.as_str());
    s.append(" wheel");
    if count != 1 {
        s.append("s");
        proof {
            reveal_strlit("s");
            assert("s"@ =~= seq!['s']);
        }
    } else {
        proof {
            assert(plural_suffix(count as nat) =~= Seq::<char>::empty());
        }
    }
    s.append(" in ");
    s.append(elapsed);
    proof {
        assert(s@ =~= build_summary_spec(count as nat, elapsed@));
    }
    s
}

} // verus!
