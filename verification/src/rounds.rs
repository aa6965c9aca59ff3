//! Which handle a wait comes to, by the answers that it gets.
use crate::select::{asked, distinct, law_walk_visits_all, settled, Round};
use vstd::prelude::*;

verus! {

/// All answers are no.
pub open spec fn all_no(answers: Seq<bool>) -> bool {
    forall|i: int| 0 <= i < answers.len() ==> !(#[trigger] answers[i])
}

/// A wait goes on from where it is by one answer.
proof fn lemma_next(s: Seq<usize>, do_preflight_checks: bool, answers: Seq<bool>, yes: bool)
    ensures
        asked(s, do_preflight_checks, answers.push(yes)) == asked(
            s,
            do_preflight_checks,
            answers,
        ).next(s, yes),
{
    assert(answers.push(yes).drop_last() =~= answers);
}

/// With preflight checks the handles are asked one after the other, from the first on, whether
/// a message can be seen, until one says yes or all have said no.
pub proof fn law_preflight_asks_in_order(s: Seq<usize>, answers: Seq<bool>)
    requires
        distinct(s),
        answers.len() <= s.len(),
        all_no(answers),
    ensures
        asked(s, true, answers) == if answers.len() < s.len() {
            Round::Probe(s[answers.len() as int])
        } else {
            Round::Token
        },
    decreases answers.len(),
{
    assert forall|i: int| 0 <= i < s.len() implies #[trigger] s[i] != 0 by {
        assert(s.contains(s[i]));
    }
    if answers.len() > 0 {
        let fewer = answers.drop_last();
        assert forall|i: int| 0 <= i < fewer.len() implies !(#[trigger] fewer[i]) by {
            assert(!answers[i]);
        }
        law_preflight_asks_in_order(s, fewer);
        assert(!answers[answers.len() - 1]);
        law_walk_visits_all(s, answers.len() - 1);
    }
}

/// Without preflight checks nothing is asked of a handle before the thread makes its token.
pub proof fn law_no_preflight_asks_nothing(s: Seq<usize>)
    ensures
        asked(s, false, Seq::empty()) is Token,
{
}

/// With preflight checks a wait returns the first handle that says that a message can be
/// seen.
pub proof fn law_preflight_returns_first(s: Seq<usize>, no: Seq<bool>)
    requires
        distinct(s),
        no.len() < s.len(),
        all_no(no),
    ensures
        asked(s, true, no.push(true)) == Round::Done(s[no.len() as int]),
{
    law_preflight_asks_in_order(s, no);
    lemma_next(s, true, no, true);
}

/// Once the thread has made its token, the handles are asked one after the other, from the
/// first on, to announce it, until one says that there is no need to wait. If none does, the
/// thread sleeps.
pub proof fn law_announcements_go_in_order(
    s: Seq<usize>,
    do_preflight_checks: bool,
    before: Seq<bool>,
    made: bool,
    no: Seq<bool>,
)
    requires
        distinct(s),
        s.len() <= usize::MAX,
        asked(s, do_preflight_checks, before) is Token,
        no.len() <= s.len(),
        all_no(no),
    ensures
        asked(s, do_preflight_checks, before.push(made) + no) == if no.len() < s.len() {
            Round::Install(s[no.len() as int], no.len() as usize)
        } else {
            Round::Wait
        },
    decreases no.len(),
{
    assert forall|i: int| 0 <= i < s.len() implies #[trigger] s[i] != 0 by {
        assert(s.contains(s[i]));
    }
    lemma_next(s, do_preflight_checks, before, made);
    if no.len() == 0 {
        assert(before.push(made) + no =~= before.push(made));
    } else {
        let fewer = no.drop_last();
        assert forall|i: int| 0 <= i < fewer.len() implies !(#[trigger] fewer[i]) by {
            assert(!no[i]);
        }
        law_announcements_go_in_order(s, do_preflight_checks, before, made, fewer);
        assert(!no[no.len() - 1]);
        assert(before.push(made) + no =~= (before.push(made) + fewer).push(false));
        lemma_next(s, do_preflight_checks, before.push(made) + fewer, false);
        law_walk_visits_all(s, no.len() - 1);
    }
}

/// When a handle says that there is no need to wait, those before it are asked, from the
/// first on, to take the announcement back, and then that handle is returned.
pub proof fn law_refusal_is_returned(
    s: Seq<usize>,
    do_preflight_checks: bool,
    before: Seq<bool>,
    made: bool,
    no: Seq<bool>,
    back: Seq<bool>,
)
    requires
        distinct(s),
        s.len() <= usize::MAX,
        asked(s, do_preflight_checks, before) is Token,
        no.len() < s.len(),
        all_no(no),
        back.len() <= no.len(),
    ensures
        asked(s, do_preflight_checks, (before.push(made) + no).push(true) + back) == if back.len()
            < no.len() {
            Round::Rollback(
                s[back.len() as int],
                (no.len() - back.len()) as usize,
                s[no.len() as int],
            )
        } else {
            Round::Done(s[no.len() as int])
        },
    decreases back.len(),
{
    let start = (before.push(made) + no).push(true);
    if back.len() == 0 {
        law_announcements_go_in_order(s, do_preflight_checks, before, made, no);
        lemma_next(s, do_preflight_checks, before.push(made) + no, true);
        assert(start + back =~= start);
        law_walk_visits_all(s, 0);
    } else {
        let fewer = back.drop_last();
        law_refusal_is_returned(s, do_preflight_checks, before, made, no, fewer);
        assert(start + back =~= (start + fewer).push(back.last()));
        lemma_next(s, do_preflight_checks, start + fewer, back.last());
        law_walk_visits_all(s, back.len() - 1);
    }
}

/// A thread that sleeps goes on sleeping until the token has been signalled.
pub proof fn law_sleep_lasts_until_signal(
    s: Seq<usize>,
    do_preflight_checks: bool,
    before: Seq<bool>,
)
    requires
        asked(s, do_preflight_checks, before) is Wait,
    ensures
        asked(s, do_preflight_checks, before.push(false)) is Wait,
        s.len() > 0 && s[0] != 0 ==> asked(s, do_preflight_checks, before.push(true))
            == Round::Collect(s[0], None),
{
    lemma_next(s, do_preflight_checks, before, false);
    lemma_next(s, do_preflight_checks, before, true);
}

/// After a wake-up the handles are asked one after the other, from the first on, to take the
/// announcement back, until all have been asked.
pub proof fn law_wakeup_asks_in_order(
    s: Seq<usize>,
    do_preflight_checks: bool,
    before: Seq<bool>,
    answers: Seq<bool>,
)
    requires
        distinct(s),
        s.len() > 0,
        asked(s, do_preflight_checks, before) is Wait,
        answers.len() <= s.len(),
    ensures
        ({
            let at = asked(s, do_preflight_checks, before.push(true) + answers);
            if answers.len() < s.len() {
                at is Collect && at->Collect_0 == s[answers.len() as int]
            } else {
                at is Done
            }
        }),
    decreases answers.len(),
{
    let start = before.push(true);
    if answers.len() == 0 {
        assert(s.contains(s[0]));
        law_sleep_lasts_until_signal(s, do_preflight_checks, before);
        assert(start + answers =~= start);
    } else {
        let fewer = answers.drop_last();
        let n = answers.len() as int;
        law_wakeup_asks_in_order(s, do_preflight_checks, before, fewer);
        assert(start + answers =~= (start + fewer).push(answers.last()));
        lemma_next(s, do_preflight_checks, start + fewer, answers.last());
        law_walk_visits_all(s, n - 1);
        if n < s.len() {
            assert(s.contains(s[n]));
        }
    }
}

/// After a wake-up the last handle that says that it has something to offer is returned.
pub proof fn law_wakeup_returns_last(
    s: Seq<usize>,
    do_preflight_checks: bool,
    before: Seq<bool>,
    answers: Seq<bool>,
    k: int,
)
    requires
        distinct(s),
        asked(s, do_preflight_checks, before) is Wait,
        0 <= k < answers.len() <= s.len(),
        answers[k],
        forall|i: int| k < i < answers.len() ==> !(#[trigger] answers[i]),
    ensures
        settled(asked(s, do_preflight_checks, before.push(true) + answers)) == Some(s[k]),
        answers.len() == s.len() ==> asked(s, do_preflight_checks, before.push(true) + answers)
            == Round::Done(s[k]),
    decreases answers.len(),
{
    let start = before.push(true);
    let fewer = answers.drop_last();
    let n = answers.len() as int;
    law_wakeup_asks_in_order(s, do_preflight_checks, before, fewer);
    law_wakeup_asks_in_order(s, do_preflight_checks, before, answers);
    assert(start + answers =~= (start + fewer).push(answers.last()));
    lemma_next(s, do_preflight_checks, start + fewer, answers.last());
    if k < n - 1 {
        law_wakeup_returns_last(s, do_preflight_checks, before, fewer, k);
        assert(!answers[n - 1]);
    }
}

} // verus!
