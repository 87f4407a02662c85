//! Bringing the whole organisation back after a change of version: the
//! headquarters first, then each department of the registry in its order.

use vstd::prelude::*;

use crate::backup::listed;
use crate::json::{object, put, text, Json};
use crate::json::{members, JsonTree};
use crate::text::texts;

verus! {

broadcast use crate::json::group_json_views;

/// What restoring does about one department.
#[derive(Debug, PartialEq, Eq, Clone, Copy, Structural)]
pub enum RestoreChoice {
    /// Deleted on purpose: not started; its daemon is stopped where it runs.
    Skip { stop: bool },
    /// Running: its nodes are restored.
    RestoreNodes,
    /// Not running: its daemon is started.
    Launch,
}

/// What restoring does about the department `name`. A deleted department is
/// never brought back.
pub fn restore_choice(name: &str, tombstones: &[String], alive: bool) -> (r: RestoreChoice)
    ensures
        r == (if texts(tombstones@).contains(name@) {
            RestoreChoice::Skip { stop: alive }
        } else if alive {
            RestoreChoice::RestoreNodes
        } else {
            RestoreChoice::Launch
        }),
{
    if listed(tombstones, name) {
        RestoreChoice::Skip { stop: alive }
    } else if alive {
        RestoreChoice::RestoreNodes
    } else {
        RestoreChoice::Launch
    }
}

/// How skipping a deleted department went.
pub open spec fn skip_detail(stopped: Option<bool>) -> Seq<char> {
    match stopped {
        None => "삭제-의도 묘비 — 재기동 제외"@,
        Some(true) => "삭제-의도 묘비 — 잔존 데몬 정리 완료"@,
        Some(false) => "삭제-의도 묘비 — teardown 미확정(WARN·차회 시작 시 재시도)"@,
    }
}

/// The progress event for a deleted department.
pub open spec fn skip_tree(name: Seq<char>, stopped: Option<bool>) -> JsonTree {
    JsonTree::Object(
        seq![
            ("dept"@, JsonTree::Text(name)),
            ("detail"@, JsonTree::Text(skip_detail(stopped))),
            ("phase"@, JsonTree::Text("skip"@)),
        ],
    )
}

/// The progress event for a deleted department. `stopped` says, where its
/// daemon was running, whether it stopped answering.
pub fn restore_skip_event(name: &str, stopped: Option<bool>) -> (r: Json)
    ensures
        r@ == skip_tree(name@, stopped),
{
    let detail = match stopped {
        None => "삭제-의도 묘비 — 재기동 제외",
        Some(true) => "삭제-의도 묘비 — 잔존 데몬 정리 완료",
        Some(false) => "삭제-의도 묘비 — teardown 미확정(WARN·차회 시작 시 재시도)",
    };
    let mut m = object();
    put(&mut m, "dept", text(name));
    put(&mut m, "detail", text(detail));
    put(&mut m, "phase", text("skip"));
    assert(members(m@) =~= seq![
        ("dept"@, JsonTree::Text(name@)),
        ("detail"@, JsonTree::Text(skip_detail(stopped))),
        ("phase"@, JsonTree::Text("skip"@)),
    ]);
    Json::Object(m)
}

/// The number of results that are `good`.
pub open spec fn count_of(results: Seq<bool>, good: bool) -> nat
    decreases results.len(),
{
    if results.len() == 0 {
        0
    } else {
        count_of(results.drop_last(), good) + if results.last() == good {
            1nat
        } else {
            0nat
        }
    }
}

/// The last progress event of restoring.
pub open spec fn restore_end(hq_ok: bool, ok: nat, fail: nat) -> JsonTree {
    if !hq_ok && ok == 0 && fail == 0 {
        JsonTree::Object(
            seq![
                ("detail"@, JsonTree::Text("본부 노드 복원 실행 실패"@)),
                ("phase"@, JsonTree::Text("error"@)),
            ],
        )
    } else {
        JsonTree::Object(
            seq![
                ("fail"@, JsonTree::Unsigned(fail as u64)),
                ("hq_ok"@, JsonTree::Bool(hq_ok)),
                ("ok"@, JsonTree::Unsigned(ok as u64)),
                ("phase"@, JsonTree::Text("done"@)),
            ],
        )
    }
}

/// The last progress event of restoring: an error where the headquarters failed
/// and there was no department, the counts otherwise. `results` says for each
/// department that was not skipped whether it was restored.
pub fn spawn_org_restore(hq_ok: bool, results: &[bool]) -> (r: Json)
    ensures
        r@ == restore_end(hq_ok, count_of(results@, true), count_of(results@, false)),
{
    let mut ok: u64 = 0;
    let mut fail: u64 = 0;
    let mut i: usize = 0;
    while i < results.len()
        invariant
            i <= results@.len(),
            ok + fail == i,
            ok == count_of(results@.take(i as int), true),
            fail == count_of(results@.take(i as int), false),
        decreases results.len() - i,
    {
        assert(results@.take(i + 1).drop_last() =~= results@.take(i as int));
        if results[i] {
            ok += 1;
        } else {
            fail += 1;
        }
        i += 1;
    }
    assert(results@.take(results@.len() as int) =~= results@);
    let mut m = object();
    if !hq_ok && ok == 0 && fail == 0 {
        put(&mut m, "detail", text("본부 노드 복원 실행 실패"));
        put(&mut m, "phase", text("error"));
    } else {
        put(&mut m, "fail", Json::Unsigned(fail));
        put(&mut m, "hq_ok", Json::Bool(hq_ok));
        put(&mut m, "ok", Json::Unsigned(ok));
        put(&mut m, "phase", text("done"));
    }
    assert(members(m@) =~= restore_end(hq_ok, ok as nat, fail as nat)->Object_0);
    Json::Object(m)
}

/// How far restoring the departments has come.
#[derive(Debug)]
pub struct OrgRestore {
    hq_ok: bool,
    tombstones: Vec<String>,
    names: Vec<String>,
    next: usize,
    results: Vec<bool>,
}

/// How far restoring has come: whether the headquarters came back, the deleted
/// departments, all departments, the number of those that are dealt with, and for
/// each of these that is not deleted whether it came back.
pub struct RestoreState {
    pub hq_ok: bool,
    pub tombstones: Seq<Seq<char>>,
    pub names: Seq<Seq<char>>,
    pub next: int,
    pub results: Seq<bool>,
}

/// The number of names that are not deleted.
pub open spec fn due(names: Seq<Seq<char>>, tombstones: Seq<Seq<char>>) -> nat
    decreases names.len(),
{
    if names.len() == 0 {
        0
    } else {
        due(names.drop_last(), tombstones) + if tombstones.contains(names.last()) {
            0nat
        } else {
            1nat
        }
    }
}

impl RestoreState {
    /// Every department that was dealt with, and no deleted one, has a result.
    pub open spec fn wf(self) -> bool {
        0 <= self.next <= self.names.len() && self.results.len() == due(
            self.names.take(self.next),
            self.tombstones,
        )
    }

    /// All departments are dealt with.
    pub open spec fn finished(self) -> bool {
        self.next == self.names.len()
    }

    /// The department whose turn it is was deleted.
    pub open spec fn deleted(self) -> bool {
        self.tombstones.contains(self.names[self.next])
    }

    /// The next department has its turn.
    pub open spec fn passed(self) -> RestoreState {
        RestoreState { next: self.next + 1, ..self }
    }

    /// The department whose turn it was came back, or did not.
    pub open spec fn counted(self, ok: bool) -> RestoreState {
        RestoreState { next: self.next + 1, results: self.results.push(ok), ..self }
    }
}

/// What was learnt of the department whose turn it is.
#[derive(Debug, PartialEq, Eq, Clone, Copy, Structural)]
pub enum RestoreEvent {
    /// Whether its daemon answers.
    Answers(bool),
    /// Its daemon was told to stop: whether it no longer answers.
    Stopped(bool),
    /// Its nodes were restored, or its daemon started: whether that went well.
    Attempted(bool),
}

/// What is to be done about the department whose turn it is.
#[derive(Debug)]
pub enum RestoreStep {
    /// Ask whether its daemon answers.
    Ask,
    /// Stop its daemon.
    Stop,
    RestoreNodes,
    Launch,
    /// Tell the interface; the next department has its turn.
    PassOver(Json),
    /// The next department has its turn.
    Next,
    /// All departments are dealt with: tell the interface.
    Done(Json),
}

/// What is to be done, with what the interface is told.
pub enum StepFacts {
    Ask,
    Stop,
    RestoreNodes,
    Launch,
    PassOver(JsonTree),
    Next,
    Done(JsonTree),
}

impl View for RestoreStep {
    type V = StepFacts;

    open spec fn view(&self) -> StepFacts {
        match *self {
            RestoreStep::Ask => StepFacts::Ask,
            RestoreStep::Stop => StepFacts::Stop,
            RestoreStep::RestoreNodes => StepFacts::RestoreNodes,
            RestoreStep::Launch => StepFacts::Launch,
            RestoreStep::PassOver(j) => StepFacts::PassOver(j@),
            RestoreStep::Next => StepFacts::Next,
            RestoreStep::Done(j) => StepFacts::Done(j@),
        }
    }
}

/// What an event leads to: how far restoring has come then, and what is to be
/// done. A deleted department is passed over, once its daemon was told to stop
/// where it runs; any other is restored where it runs and started where it does
/// not. An event that was not asked for changes nothing.
pub open spec fn restore_step(s: RestoreState, event: RestoreEvent) -> (RestoreState, StepFacts) {
    if s.finished() {
        (s, StepFacts::Done(
            restore_end(s.hq_ok, count_of(s.results, true), count_of(s.results, false)),
        ))
    } else {
        match event {
            RestoreEvent::Answers(alive) => if s.deleted() {
                if alive {
                    (s, StepFacts::Stop)
                } else {
                    (s.passed(), StepFacts::PassOver(skip_tree(s.names[s.next], None)))
                }
            } else if alive {
                (s, StepFacts::RestoreNodes)
            } else {
                (s, StepFacts::Launch)
            },
            RestoreEvent::Stopped(gone) => if s.deleted() {
                (s.passed(), StepFacts::PassOver(skip_tree(s.names[s.next], Some(gone))))
            } else {
                (s, StepFacts::Ask)
            },
            RestoreEvent::Attempted(ok) => if s.deleted() {
                (s, StepFacts::Ask)
            } else {
                (s.counted(ok), StepFacts::Next)
            },
        }
    }
}

impl View for OrgRestore {
    type V = RestoreState;

    closed spec fn view(&self) -> RestoreState {
        RestoreState {
            hq_ok: self.hq_ok,
            tombstones: texts(self.tombstones@),
            names: texts(self.names@),
            next: self.next as int,
            results: self.results@,
        }
    }
}

impl OrgRestore {
    /// Restoring after the headquarters, with no department dealt with.
    pub fn new(hq_ok: bool, tombstones: Vec<String>, names: Vec<String>) -> (r: OrgRestore)
        ensures
            r@ == (RestoreState {
                hq_ok,
                tombstones: texts(tombstones@),
                names: texts(names@),
                next: 0,
                results: Seq::empty(),
            }),
            r@.wf(),
    {
        assert(texts(names@).take(0).len() == 0);
        OrgRestore { hq_ok, tombstones, names, next: 0, results: Vec::new() }
    }

    /// The place in the registry of the department whose turn it is.
    pub fn department(&self) -> (r: Option<usize>)
        requires
            self@.wf(),
        ensures
            r is None <==> self@.finished(),
            r matches Some(i) ==> i == self@.next,
    {
        if self.next < self.names.len() {
            Some(self.next)
        } else {
            None
        }
    }

    /// Takes in what was learnt, and says what is to be done.
    pub fn step(&mut self, event: RestoreEvent) -> (r: RestoreStep)
        requires
            old(self)@.wf(),
        ensures
            (final(self)@, r@) == restore_step(old(self)@, event),
            final(self)@.wf(),
    {
        let ghost s = self@;
        if self.next >= self.names.len() {
            return RestoreStep::Done(spawn_org_restore(self.hq_ok, self.results.as_slice()));
        }
        proof {
            assert(s.names.take(s.next + 1).drop_last() =~= s.names.take(s.next));
            assert(s.names.take(s.next + 1).last() == s.names[s.next]);
        }
        let i: usize = self.next;
        assert(s.names[s.next] == self.names@[i as int]@);
        let deleted = listed(self.tombstones.as_slice(), self.names[i].as_str());
        match event {
            RestoreEvent::Answers(alive) => {
                match restore_choice(
                    self.names[i].as_str(),
                    self.tombstones.as_slice(),
                    alive,
                ) {
                    RestoreChoice::Skip { stop } => {
                        if stop {
                            RestoreStep::Stop
                        } else {
                            let event = restore_skip_event(self.names[i].as_str(), None);
                            self.next = i + 1;
                            RestoreStep::PassOver(event)
                        }
                    },
                    RestoreChoice::RestoreNodes => RestoreStep::RestoreNodes,
                    RestoreChoice::Launch => RestoreStep::Launch,
                }
            },
            RestoreEvent::Stopped(gone) => {
                if deleted {
                    let event = restore_skip_event(self.names[i].as_str(), Some(gone));
                    self.next = i + 1;
                    RestoreStep::PassOver(event)
                } else {
                    RestoreStep::Ask
                }
            },
            RestoreEvent::Attempted(ok) => {
                if deleted {
                    RestoreStep::Ask
                } else {
                    self.results.push(ok);
                    self.next = i + 1;
                    RestoreStep::Next
                }
            },
        }
    }
}

/// A deleted department is never brought back: whatever is learnt of it, it is
/// neither restored nor started, and it is not counted.
pub proof fn law_deleted_departments_stay_gone(s: RestoreState, event: RestoreEvent)
    requires
        s.wf(),
        !s.finished(),
        s.deleted(),
    ensures
        restore_step(s, event).1 != StepFacts::RestoreNodes,
        restore_step(s, event).1 != StepFacts::Launch,
        restore_step(s, event).0.results == s.results,
{
}

proof fn lemma_counts_add_up(results: Seq<bool>)
    ensures
        count_of(results, true) + count_of(results, false) == results.len(),
    decreases results.len(),
{
    if results.len() > 0 {
        lemma_counts_add_up(results.drop_last());
    }
}

/// Restoring ends only once every department was dealt with, and each that is
/// not deleted is counted once, as back or as failed.
pub proof fn law_every_department_is_accounted_for(s: RestoreState, event: RestoreEvent)
    requires
        s.wf(),
    ensures
        restore_step(s, event).1 is Done <==> s.finished(),
        s.finished() ==> count_of(s.results, true) + count_of(s.results, false) == due(
            s.names,
            s.tombstones,
        ),
        restore_step(s, event).0.names == s.names,
        restore_step(s, event).0.tombstones == s.tombstones,
        s.next <= restore_step(s, event).0.next <= s.next + 1,
{
    lemma_counts_add_up(s.results);
    if s.finished() {
        assert(s.names.take(s.next) =~= s.names);
    }
}

proof fn lemma_count_is_of_all(results: Seq<bool>, good: bool)
    ensures
        count_of(results, good) == results.filter(|r: bool| r == good).len(),
    decreases results.len(),
{
    reveal(Seq::filter);
    if results.len() > 0 {
        lemma_count_is_of_all(results.drop_last(), good);
    }
}

/// The last event says how restoring ended. Its phase is an error exactly where
/// the headquarters did not come back and no department was counted, so never
/// where the headquarters came back; it then has no counts. In every other case
/// the phase is done, and the event says whether the headquarters came back, how
/// many departments did and how many did not.
pub proof fn law_restore_end_says_how_it_went(hq_ok: bool, results: Seq<bool>)
    requires
        results.len() <= u64::MAX,
    ensures
        ({
            let t = restore_end(hq_ok, count_of(results, true), count_of(results, false));
            let back = results.filter(|r: bool| r).len();
            let lost = results.filter(|r: bool| !r).len();
            &&& back + lost == results.len()
            &&& t.member("phase"@) == Some(
                JsonTree::Text(
                    if !hq_ok && results.len() == 0 {
                        "error"@
                    } else {
                        "done"@
                    },
                ),
            )
            &&& "error"@ != "done"@
            &&& hq_ok || results.len() > 0 ==> {
                &&& t.member("hq_ok"@) == Some(JsonTree::Bool(hq_ok))
                &&& t.member("ok"@) matches Some(JsonTree::Unsigned(n)) && n == back
                &&& t.member("fail"@) matches Some(JsonTree::Unsigned(n)) && n == lost
                &&& t.member("detail"@) is None
            }
            &&& !hq_ok && results.len() == 0 ==> {
                &&& t.member("detail"@) == Some(JsonTree::Text("본부 노드 복원 실행 실패"@))
                &&& t.member("hq_ok"@) is None
                &&& t.member("ok"@) is None
                &&& t.member("fail"@) is None
            }
        }),
{
    lemma_counts_add_up(results);
    lemma_count_is_of_all(results, true);
    lemma_count_is_of_all(results, false);
    assert((|r: bool| r == true) =~= (|r: bool| r));
    assert((|r: bool| r == false) =~= (|r: bool| !r));
    reveal_strlit("error");
    reveal_strlit("done");
    assert("error"@.len() != "done"@.len());
    reveal_strlit("fail");
    reveal_strlit("hq_ok");
    reveal_strlit("ok");
    reveal_strlit("phase");
    reveal_strlit("detail");
    assert("fail"@[0] == 'f');
    assert("hq_ok"@[0] == 'h');
    assert("ok"@[0] == 'o');
    assert("phase"@[0] == 'p');
    assert("detail"@[0] == 'd');
    reveal_with_fuel(crate::json::member_from, 6);
}

/// One more department that came back adds one to those that did and leaves the
/// others, and one that did not likewise; the end is reported with the results
/// that were learnt, and with the headquarters as they were at the start.
pub proof fn law_results_are_counted_as_learnt(s: RestoreState, event: RestoreEvent)
    requires
        s.wf(),
    ensures
        ({
            let (after, step) = restore_step(s, event);
            &&& after.hq_ok == s.hq_ok
            &&& s.finished() ==> after == s && step == StepFacts::Done(
                restore_end(s.hq_ok, count_of(s.results, true), count_of(s.results, false)),
            )
            &&& !s.finished() && !s.tombstones.contains(s.names[s.next]) ==> match event {
                RestoreEvent::Answers(alive) => after == s && step == (if alive {
                    StepFacts::RestoreNodes
                } else {
                    StepFacts::Launch
                }),
                RestoreEvent::Stopped(_) => after == s && step == StepFacts::Ask,
                RestoreEvent::Attempted(ok) => {
                    &&& step == StepFacts::Next
                    &&& after.next == s.next + 1
                    &&& after.results == s.results.push(ok)
                    &&& count_of(after.results, ok) == count_of(s.results, ok) + 1
                    &&& count_of(after.results, !ok) == count_of(s.results, !ok)
                },
            }
            &&& !s.finished() && s.tombstones.contains(s.names[s.next]) ==> match event {
                RestoreEvent::Answers(true) => after == s && step == StepFacts::Stop,
                RestoreEvent::Attempted(_) => after == s && step == StepFacts::Ask,
                _ => {
                    &&& after.next == s.next + 1
                    &&& after.results == s.results
                    &&& step matches StepFacts::PassOver(t) && t.member("dept"@) == Some(
                        JsonTree::Text(s.names[s.next]),
                    ) && t.member("phase"@) == Some(JsonTree::Text("skip"@))
                },
            }
        }),
{
    reveal_strlit("dept");
    reveal_strlit("detail");
    reveal_strlit("phase");
    assert("dept"@.len() == 4);
    assert("detail"@.len() == 6);
    assert("phase"@.len() == 5);
    reveal_with_fuel(crate::json::member_from, 4);
    if let RestoreEvent::Attempted(ok) = event {
        assert(s.results.push(ok).drop_last() =~= s.results);
    }
}

/// What a passed over department is reported with names it, and tells three
/// cases apart: its daemon was not running, it was and is gone, it was and may
/// still be there.
pub proof fn law_skip_event_tells_the_cases_apart(name: Seq<char>)
    ensures
        forall|stopped: Option<bool>|
            (#[trigger] skip_tree(name, stopped)).member("dept"@) == Some(JsonTree::Text(name))
                && skip_tree(name, stopped).member("phase"@) == Some(JsonTree::Text("skip"@)),
        forall|a: Option<bool>, b: Option<bool>|
            (#[trigger] skip_tree(name, a)).member("detail"@) == (#[trigger] skip_tree(
                name,
                b,
            )).member("detail"@) ==> a == b,
        skip_tree(name, None).member("detail"@) == Some(
            JsonTree::Text("삭제-의도 묘비 — 재기동 제외"@),
        ),
        skip_tree(name, Some(true)).member("detail"@) == Some(
            JsonTree::Text("삭제-의도 묘비 — 잔존 데몬 정리 완료"@),
        ),
        skip_tree(name, Some(false)).member("detail"@) == Some(
            JsonTree::Text("삭제-의도 묘비 — teardown 미확정(WARN·차회 시작 시 재시도)"@),
        ),
{
    reveal_strlit("dept");
    reveal_strlit("detail");
    reveal_strlit("phase");
    assert("dept"@.len() == 4);
    assert("detail"@.len() == 6);
    assert("phase"@.len() == 5);
    reveal_with_fuel(crate::json::member_from, 4);
    reveal_strlit("삭제-의도 묘비 — 재기동 제외");
    reveal_strlit("삭제-의도 묘비 — 잔존 데몬 정리 완료");
    reveal_strlit("삭제-의도 묘비 — teardown 미확정(WARN·차회 시작 시 재시도)");
    assert("삭제-의도 묘비 — 재기동 제외"@.len() != "삭제-의도 묘비 — 잔존 데몬 정리 완료"@.len());
    assert("삭제-의도 묘비 — 재기동 제외"@.len()
        != "삭제-의도 묘비 — teardown 미확정(WARN·차회 시작 시 재시도)"@.len());
    assert("삭제-의도 묘비 — 잔존 데몬 정리 완료"@.len()
        != "삭제-의도 묘비 — teardown 미확정(WARN·차회 시작 시 재시도)"@.len());
}

/// The departments that are due are those that are not deleted, each counted
/// once.
pub proof fn law_due_departments(names: Seq<Seq<char>>, tombstones: Seq<Seq<char>>)
    ensures
        due(names, tombstones) == names.filter(|n: Seq<char>| !tombstones.contains(n)).len(),
    decreases names.len(),
{
    reveal(Seq::filter);
    if names.len() > 0 {
        law_due_departments(names.drop_last(), tombstones);
    }
}

} // verus!
