//! Running a skill: its run identifier, its ticket and its report.

use vstd::prelude::*;

use crate::json::{int_json, object, parse, parse_bytes, put, text, text_or_null, Json};
use crate::json::{int_tree, members, parsed_bytes, parsed_json, text_tree, JsonTree};
use crate::number::decimal_text;
use crate::number::decimal;
use crate::text::{ascii_alnum, chars_of, join, same_text, split, to_ascii_lower, trim};
use crate::text::{
    ascii_lower, is_ascii_alnum, is_digit, joined, opt_str_text, opt_text, split_on, str_texts,
    texts, trimmed,
};

verus! {

broadcast use crate::json::group_json_views;

/// A character of an identifier: a letter in lower case, a digit, or the
/// separator in place of anything else.
pub open spec fn kebab_char(c: char) -> char {
    if is_ascii_alnum(c) {
        ascii_lower(c)
    } else {
        '-'
    }
}

/// The pieces that are not empty.
pub open spec fn full_pieces(pieces: Seq<Seq<char>>) -> Seq<Seq<char>>
    decreases pieces.len(),
{
    if pieces.len() == 0 {
        Seq::empty()
    } else if pieces.last().len() == 0 {
        full_pieces(pieces.drop_last())
    } else {
        full_pieces(pieces.drop_last()).push(pieces.last())
    }
}

/// The words of `s` in lower case with separators between them.
pub open spec fn kebab(s: Seq<char>) -> Seq<char> {
    joined(full_pieces(split_on(s.map_values(|c: char| kebab_char(c)), '-')), "-"@)
}

/// The identifier of a run: after the skill, or after the task where no skill is
/// named, and the time in seconds.
pub open spec fn run_id_of(slug: Option<Seq<char>>, task: Seq<char>, epoch: u64) -> Seq<char> {
    let base = kebab(
        match slug {
            Some(s) => s,
            None => task,
        },
    );
    (if base.len() == 0 {
        "skill"@
    } else {
        base
    }) + "-"@ + decimal(epoch as nat)
}

fn keep_full(pieces: &Vec<&str>) -> (r: Vec<String>)
    ensures
        texts(r@) == full_pieces(str_texts(pieces@)),
{
    let ghost all = str_texts(pieces@);
    let mut out: Vec<String> = Vec::new();
    let mut i: usize = 0;
    assert(texts(out@) =~= full_pieces(all.take(0)));
    while i < pieces.len()
        invariant
            i <= pieces.len(),
            all == str_texts(pieces@),
            texts(out@) == full_pieces(all.take(i as int)),
        decreases pieces.len() - i,
    {
        let ghost was = out@;
        assert(all.take(i + 1).drop_last() =~= all.take(i as int));
        assert(all.take(i + 1).last() == pieces@[i as int]@);
        if !pieces[i].is_empty() {
            let piece = pieces[i].to_owned();
            let ghost pt = piece@;
            out.push(piece);
            assert(texts(out@) =~= texts(was).push(pt));
        }
        i += 1;
    }
    assert(all.take(pieces.len() as int) =~= all);
    out
}

/// The identifier of a run that starts at `epoch`, in seconds.
pub fn make_run_id(slug: Option<&str>, task: &str, epoch: u64) -> (r: String)
    ensures
        r@ == run_id_of(opt_str_text(slug), task@, epoch),
{
    let from = match slug {
        Some(s) => s,
        None => task,
    };
    let v = chars_of(from);
    let mut flat = String::new();
    let ghost want = from@.map_values(|c: char| kebab_char(c));
    let mut i: usize = 0;
    assert(flat@ =~= want.take(0));
    while i < v.len()
        invariant
            i <= v.len(),
            v@ == from@,
            want == from@.map_values(|c: char| kebab_char(c)),
            flat@ == want.take(i as int),
        decreases v.len() - i,
    {
        assert(want.take(i + 1) =~= want.take(i as int).push(want[i as int]));
        if ascii_alnum(v[i]) {
            flat.push(to_ascii_lower(v[i]));
        } else {
            flat.push('-');
        }
        i += 1;
    }
    assert(want.take(v.len() as int) =~= want);
    let pieces = split(flat.as_str(), '-');
    let base = join(&keep_full(&pieces), "-");
    let mut id = if base.as_str().is_empty() {
        "skill".to_owned()
    } else {
        base
    };
    id.append("-");
    id.append(decimal_text(epoch).as_str());
    id
}

/// A character that an identifier may hold.
pub open spec fn id_char(c: char) -> bool {
    is_digit(c) || 'a' <= c <= 'z' || c == '-'
}

/// A text that holds only characters of an identifier.
pub open spec fn id_text(s: Seq<char>) -> bool {
    forall|i: int| 0 <= i < s.len() ==> id_char(#[trigger] s[i])
}

proof fn lemma_split_keeps(s: Seq<char>, sep: char)
    requires
        id_text(s),
    ensures
        split_on(s, sep).len() > 0,
        forall|i: int| 0 <= i < split_on(s, sep).len() ==> id_text(#[trigger] split_on(s, sep)[i]),
    decreases s.len(),
{
    if s.len() > 0 {
        lemma_split_keeps(s.drop_last(), sep);
        let head = split_on(s.drop_last(), sep);
        assert(id_char(s[s.len() - 1]));
        assert(id_text(head.last()));
    }
}

proof fn lemma_full_keeps(pieces: Seq<Seq<char>>)
    requires
        forall|i: int| 0 <= i < pieces.len() ==> id_text(#[trigger] pieces[i]),
    ensures
        forall|i: int|
            0 <= i < full_pieces(pieces).len() ==> id_text(#[trigger] full_pieces(pieces)[i]),
    decreases pieces.len(),
{
    if pieces.len() > 0 {
        let front = full_pieces(pieces.drop_last());
        lemma_full_keeps(pieces.drop_last());
        assert(id_text(pieces[pieces.len() - 1]));
        assert forall|i: int| 0 <= i < full_pieces(pieces).len() implies id_text(
            #[trigger] full_pieces(pieces)[i],
        ) by {
            if i < front.len() {
                assert(full_pieces(pieces)[i] == front[i]);
                assert(id_text(front[i]));
            }
        }
    }
}

proof fn lemma_joined_keeps(parts: Seq<Seq<char>>, sep: Seq<char>)
    requires
        id_text(sep),
        forall|i: int| 0 <= i < parts.len() ==> id_text(#[trigger] parts[i]),
    ensures
        id_text(joined(parts, sep)),
    decreases parts.len(),
{
    if parts.len() == 1 {
        assert(id_text(parts[0]));
    } else if parts.len() > 1 {
        lemma_joined_keeps(parts.drop_last(), sep);
        assert(id_text(parts[parts.len() - 1]));
    }
}

/// The identifier of a run is a plain file name: it holds only lower case
/// letters, digits and separators, whatever skill or task it was made from.
pub proof fn law_run_id_is_a_plain_name(slug: Option<Seq<char>>, task: Seq<char>, epoch: u64)
    ensures
        id_text(run_id_of(slug, task, epoch)),
        run_id_of(slug, task, epoch).len() > 0,
{
    let from = match slug {
        Some(s) => s,
        None => task,
    };
    let flat = from.map_values(|c: char| kebab_char(c));
    assert(id_text(flat));
    let pieces = split_on(flat, '-');
    lemma_split_keeps(flat, '-');
    lemma_full_keeps(pieces);
    reveal_strlit("-");
    reveal_strlit("skill");
    lemma_joined_keeps(full_pieces(pieces), "-"@);
    crate::number::lemma_decimal_is_digits(epoch as nat);
    assert forall|i: int| 0 <= i < decimal(epoch as nat).len() implies id_char(
        #[trigger] decimal(epoch as nat)[i],
    ) by {
        assert(is_digit(decimal(epoch as nat)[i]));
    }
}

/// The audience in the user's profile; `custom` where none is given.
pub open spec fn audience_in(profile: Option<JsonTree>) -> Seq<char> {
    match profile {
        Some(t) => match crate::dept::text_at(t, "audience"@) {
            Some(a) => if a.len() > 0 {
                a
            } else {
                "custom"@
            },
            None => "custom"@,
        },
        None => "custom"@,
    }
}

/// The audience in a profile that was read.
pub fn profile_audience(profile: Option<Json>) -> (r: String)
    ensures
        r@ == audience_in(
            match profile {
                Some(j) => Some(j@),
                None => None,
            },
        ),
{
    if let Some(j) = profile {
        if let Some(a) = crate::dept::get_text(&j, "audience") {
            if !a.as_str().is_empty() {
                return a;
            }
        }
    }
    "custom".to_owned()
}

/// The audience in the user's profile, of which `content` is the text.
pub fn read_profile_audience(content: Option<&str>) -> (r: String)
    ensures
        r@ == audience_in(
            match content {
                Some(c) => match parsed_json(c@) {
                    Ok(t) => Some(t),
                    Err(_) => None,
                },
                None => None,
            },
        ),
{
    let profile = match content {
        Some(c) => match parse(c) {
            Ok(j) => Some(j),
            Err(_) => None,
        },
        None => None,
    };
    profile_audience(profile)
}

/// Where a run's results are to be put, and the label they are to carry.
pub open spec fn output_format(run_id: Seq<char>) -> Seq<char> {
    "산출물을 ~/.cys/_round/skill-out/"@ + run_id
        + "/ (절대경로) 아래에 저장하라(결정론 회수 위치·SB-6). 산출물에 '🔒 AI 보조 생성 · 오너 검수 전' 신뢰선 라벨을 부착하라(과대약속 금지)."@
}

/// The scope with the audience added to it, unless it is everybody.
pub open spec fn full_scope(scope: Seq<char>, audience: Seq<char>) -> Seq<char> {
    if audience == "custom"@ {
        scope
    } else {
        scope + " · 청중 프로파일: "@ + audience
            + "(이 청중 맞춤으로 산출·Implications Domain 질문 생략)"@
    }
}

fn push_text(v: &mut Vec<String>, s: &str)
    ensures
        texts(final(v)@) == texts(old(v)@).push(s@),
{
    v.push(s.to_owned());
    assert(texts(v@) =~= texts(old(v)@).push(s@));
}

/// The arguments of the program that writes a ticket.
pub open spec fn ticket_arg_texts(
    script: Seq<char>,
    task: Seq<char>,
    scope: Seq<char>,
    success: Seq<char>,
    to: Seq<char>,
    run_id: Seq<char>,
    audience: Seq<char>,
) -> Seq<Seq<char>> {
    seq![
        script,
        "task-prompt"@,
        "--task"@,
        task,
        "--scope"@,
        full_scope(scope, audience),
        "--success"@,
        success,
        "--to"@,
        to,
        "--no-survival-gate"@,
        "--output-format"@,
        output_format(run_id),
    ]
}

/// The arguments of the program that writes a ticket.
pub fn ticket_args(
    script: &str,
    task: &str,
    scope: &str,
    success: &str,
    to: &str,
    run_id: &str,
    audience: &str,
) -> (r: Vec<String>)
    ensures
        texts(r@) == seq![
            script@,
            "task-prompt"@,
            "--task"@,
            task@,
            "--scope"@,
            full_scope(scope@, audience@),
            "--success"@,
            success@,
            "--to"@,
            to@,
            "--no-survival-gate"@,
            "--output-format"@,
            output_format(run_id@),
        ],
        texts(r@) == ticket_arg_texts(script@, task@, scope@, success@, to@, run_id@, audience@),
{
    let mut scope_full = scope.to_owned();
    if !same_text(audience, "custom") {
        scope_full.append(" · 청중 프로파일: ");
        scope_full.append(audience);
        scope_full.append("(이 청중 맞춤으로 산출·Implications Domain 질문 생략)");
    }
    let mut out_fmt = "산출물을 ~/.cys/_round/skill-out/".to_owned();
    out_fmt.append(run_id);
    out_fmt.append(
        "/ (절대경로) 아래에 저장하라(결정론 회수 위치·SB-6). 산출물에 '🔒 AI 보조 생성 · 오너 검수 전' 신뢰선 라벨을 부착하라(과대약속 금지).",
    );
    let mut v: Vec<String> = Vec::new();
    assert(texts(v@) =~= Seq::<Seq<char>>::empty());
    push_text(&mut v, script);
    push_text(&mut v, "task-prompt");
    push_text(&mut v, "--task");
    push_text(&mut v, task);
    push_text(&mut v, "--scope");
    push_text(&mut v, scope_full.as_str());
    push_text(&mut v, "--success");
    push_text(&mut v, success);
    push_text(&mut v, "--to");
    push_text(&mut v, to);
    push_text(&mut v, "--no-survival-gate");
    push_text(&mut v, "--output-format");
    push_text(&mut v, out_fmt.as_str());
    assert(texts(v@) =~= seq![
        script@,
        "task-prompt"@,
        "--task"@,
        task@,
        "--scope"@,
        full_scope(scope@, audience@),
        "--success"@,
        success@,
        "--to"@,
        to@,
        "--no-survival-gate"@,
        "--output-format"@,
        output_format(run_id@),
    ]);
    v
}

/// A ticket and the identifier of its run.
pub open spec fn ticket_tree(run_id: Seq<char>, ticket: Seq<char>) -> JsonTree {
    JsonTree::Object(
        seq![("run_id"@, JsonTree::Text(run_id)), ("ticket"@, JsonTree::Text(ticket))],
    )
}

/// The ticket with the identifier of its run, or why there is none. `printed`
/// is whether the program succeeded with what it printed, or why it did not
/// start.
pub fn make_ticket(run_id: &str, printed: Result<(bool, String, String), String>) -> (r: Result<
    Json,
    String,
>)
    ensures
        match printed {
            Err(why) => r matches Err(e) && e@ == "javis_orchestra 실행 실패: "@ + why@,
            Ok((success, stdout, stderr)) => if success {
                r matches Ok(j) && j@ == JsonTree::Object(
                    seq![
                        ("run_id"@, JsonTree::Text(run_id@)),
                        ("ticket"@, JsonTree::Text(stdout@)),
                    ],
                )
            } else {
                r matches Err(e) && e@ == "task-prompt 실패: "@ + stderr@
            },
        },
        r matches Ok(j) ==> (printed matches Ok((_, stdout, _)) && j@ == ticket_tree(run_id@, stdout@)),
{
    match printed {
        Err(why) => {
            let mut e = "javis_orchestra 실행 실패: ".to_owned();
            e.append(why.as_str());
            Err(e)
        },
        Ok((success, stdout, stderr)) => {
            if !success {
                let mut e = "task-prompt 실패: ".to_owned();
                e.append(stderr.as_str());
                return Err(e);
            }
            let ghost want = seq![
                ("run_id"@, JsonTree::Text(run_id@)),
                ("ticket"@, JsonTree::Text(stdout@)),
            ];
            let mut m = object();
            put(&mut m, "run_id", text(run_id));
            put(&mut m, "ticket", Json::Text(stdout));
            assert(members(m@) =~= want);
            Ok(Json::Object(m))
        },
    }
}

/// The arguments that run a skill.
pub open spec fn skill_arg_texts(
    name: Seq<char>,
    ticket: Seq<char>,
    agent: Seq<char>,
    close_after: Option<u64>,
    run_id: Option<Seq<char>>,
) -> Seq<Seq<char>> {
    seq!["skill"@, "run"@, name, "--ticket"@, ticket, "--agent"@, agent] + (match close_after {
        Some(s) => seq!["--close-after"@, decimal(s as nat)],
        None => Seq::empty(),
    }) + (match run_id {
        Some(i) => seq!["--run-id"@, i],
        None => Seq::empty(),
    })
}

/// The arguments that run a skill, refused without a ticket. The agent is
/// `default_agent` where none is named.
pub fn run_skill(
    name: &str,
    ticket: &str,
    agent: &Option<String>,
    default_agent: &str,
    close_after: Option<u64>,
    run_id: &Option<String>,
) -> (r: Result<Vec<String>, String>)
    ensures
        if trimmed(ticket@).len() == 0 {
            r matches Err(e) && e@ == "ticket 비어 있음 — 무계약 실행 금지"@
        } else {
            r matches Ok(v) && texts(v@) == skill_arg_texts(
                name@,
                ticket@,
                match opt_text(*agent) {
                    Some(a) => a,
                    None => default_agent@,
                },
                close_after,
                opt_text(*run_id),
            )
        },
{
    if trim(ticket).is_empty() {
        return Err("ticket 비어 있음 — 무계약 실행 금지".to_owned());
    }
    let agent = match agent {
        Some(a) => a.as_str(),
        None => default_agent,
    };
    let mut v: Vec<String> = Vec::new();
    assert(texts(v@) =~= Seq::<Seq<char>>::empty());
    push_text(&mut v, "skill");
    push_text(&mut v, "run");
    push_text(&mut v, name);
    push_text(&mut v, "--ticket");
    push_text(&mut v, ticket);
    push_text(&mut v, "--agent");
    push_text(&mut v, agent);
    let ghost base = seq![
        "skill"@,
        "run"@,
        name@,
        "--ticket"@,
        ticket@,
        "--agent"@,
        agent@,
    ];
    assert(texts(v@) =~= base);
    let ghost mut closing = Seq::<Seq<char>>::empty();
    if let Some(s) = close_after {
        push_text(&mut v, "--close-after");
        push_text(&mut v, decimal_text(s).as_str());
        proof {
            closing = seq!["--close-after"@, decimal(s as nat)];
        }
    }
    assert(texts(v@) =~= base + closing);
    if let Some(i) = run_id {
        push_text(&mut v, "--run-id");
        push_text(&mut v, i.as_str());
        assert(texts(v@) =~= base + closing + seq!["--run-id"@, i@]);
    }
    assert(texts(v@) =~= skill_arg_texts(name@, ticket@, agent@, close_after, opt_text(*run_id)));
    Ok(v)
}

/// What the interface is told of a skill that was started.
pub open spec fn started_tree(name: Seq<char>, run_id: Option<Seq<char>>) -> JsonTree {
    JsonTree::Object(
        seq![
            ("name"@, JsonTree::Text(name)),
            ("ok"@, JsonTree::Bool(true)),
            ("run_id"@, text_tree(run_id)),
        ],
    )
}

/// What the interface is told once the skill was started, or why it was not.
pub fn skill_started(
    name: &str,
    run_id: &Option<String>,
    program: &str,
    failure: &Option<String>,
) -> (r: Result<Json, String>)
    ensures
        match *failure {
            Some(why) => r matches Err(e) && e@ == "cys skill run 실행 실패 ("@ + program@ + "): "@
                + why@,
            None => r matches Ok(j) && j@ == JsonTree::Object(
                seq![
                    ("name"@, JsonTree::Text(name@)),
                    ("ok"@, JsonTree::Bool(true)),
                    ("run_id"@, text_tree(opt_text(*run_id))),
                ],
            ),
        },
        r matches Ok(j) ==> j@ == started_tree(name@, opt_text(*run_id)),
{
    match failure {
        Some(why) => {
            let mut e = "cys skill run 실행 실패 (".to_owned();
            e.append(program);
            e.append("): ");
            e.append(why.as_str());
            Err(e)
        },
        None => {
            let mut m = object();
            put(&mut m, "name", text(name));
            put(&mut m, "ok", Json::Bool(true));
            put(&mut m, "run_id", text_or_null(run_id));
            assert(members(m@) =~= seq![
                ("name"@, JsonTree::Text(name@)),
                ("ok"@, JsonTree::Bool(true)),
                ("run_id"@, text_tree(opt_text(*run_id))),
            ]);
            Ok(Json::Object(m))
        },
    }
}

/// The parameters that list the latest runs.
pub open spec fn runs_tree(limit: Option<u64>) -> JsonTree {
    JsonTree::Object(
        seq![
            (
                "limit"@,
                JsonTree::Unsigned(
                    match limit {
                        Some(n) => n,
                        None => 20,
                    },
                ),
            ),
        ],
    )
}

/// The parameters that list the latest runs, twenty unless told otherwise.
pub fn skill_runs(limit: Option<u64>) -> (r: Json)
    ensures
        r@ == JsonTree::Object(
            seq![
                (
                    "limit"@,
                    JsonTree::Unsigned(
                        match limit {
                            Some(n) => n,
                            None => 20,
                        },
                    ),
                ),
            ],
        ),
        r@ == runs_tree(limit),
{
    let n: u64 = match limit {
        Some(n) => n,
        None => 20,
    };
    let mut m = object();
    put(&mut m, "limit", Json::Unsigned(n));
    assert(members(m@) =~= seq![("limit"@, JsonTree::Unsigned(n))]);
    Json::Object(m)
}

/// What the resource check reports: its exit status and its report.
pub open spec fn gate_tree(code: int, report: JsonTree) -> JsonTree {
    JsonTree::Object(seq![("exit_code"@, int_tree(code)), ("report"@, report)])
}

/// What the resource check reports, given the report that it printed.
pub fn gate_report(code: Option<i32>, report: Option<Json>) -> (r: Json)
    ensures
        r@ == gate_tree(
            match code {
                Some(c) => c as int,
                None => 0,
            },
            match report {
                Some(j) => j@,
                None => JsonTree::Null,
            },
        ),
{
    let c: i32 = match code {
        Some(c) => c,
        None => 0,
    };
    let rep = match report {
        Some(j) => j,
        None => Json::Null,
    };
    let ghost rt = rep@;
    let mut m = object();
    put(&mut m, "exit_code", int_json(c));
    put(&mut m, "report", rep);
    assert(members(m@) =~= gate_tree(c as int, rt)->Object_0);
    Json::Object(m)
}

/// What the resource check reports, out of its exit status and what it printed.
/// One that is not there or did not start lets everything pass.
pub fn resource_gate_check(ran: Option<(Option<i32>, &[u8])>) -> (r: Json)
    ensures
        r@ == (match ran {
            Some((code, stdout)) => gate_tree(
                match code {
                    Some(c) => c as int,
                    None => 0,
                },
                match parsed_bytes(stdout@) {
                    Some(t) => t,
                    None => JsonTree::Null,
                },
            ),
            None => gate_tree(0, JsonTree::Null),
        }),
{
    match ran {
        Some((code, stdout)) => gate_report(code, parse_bytes(stdout)),
        None => gate_report(Some(0), None),
    }
}

/// The catalogue of skills, or why there is none. `content` is its text, or why
/// it could not be read.
pub fn read_board_catalog(path: &str, content: Result<&str, String>) -> (r: Result<Json, String>)
    ensures
        match content {
            Err(why) => r matches Err(e) && e@ == "board-catalog.json 없음 ("@ + path@ + "): "@
                + why@,
            Ok(c) => match parsed_json(c@) {
                Ok(t) => r matches Ok(j) && j@ == t,
                Err(why) => r matches Err(e) && e@ == "카탈로그 파싱 실패: "@ + why,
            },
        },
{
    match content {
        Err(why) => {
            let mut e = "board-catalog.json 없음 (".to_owned();
            e.append(path);
            e.append("): ");
            e.append(why.as_str());
            Err(e)
        },
        Ok(c) => match parse(c) {
            Ok(j) => Ok(j),
            Err(why) => {
                let mut e = "카탈로그 파싱 실패: ".to_owned();
                e.append(why.as_str());
                Err(e)
            },
        },
    }
}

/// The words of a name stay, the empty pieces between them go.
pub proof fn law_full_pieces_stay(pieces: Seq<Seq<char>>)
    ensures
        full_pieces(pieces) == pieces.filter(|p: Seq<char>| p.len() > 0),
    decreases pieces.len(),
{
    reveal(Seq::filter);
    if pieces.len() > 0 {
        law_full_pieces_stay(pieces.drop_last());
    }
    assert(full_pieces(pieces) =~= pieces.filter(|p: Seq<char>| p.len() > 0));
}

/// `s` without the separators.
pub open spec fn bare(s: Seq<char>) -> Seq<char> {
    s.filter(|c: char| c != '-')
}

proof fn lemma_bare_add(a: Seq<char>, b: Seq<char>)
    ensures
        bare(a + b) == bare(a) + bare(b),
{
    Seq::filter_distributes_over_add(a, b, |c: char| c != '-');
}

proof fn lemma_bare_of_bare(s: Seq<char>)
    requires
        !s.contains('-'),
    ensures
        bare(s) == s,
    decreases s.len(),
{
    reveal(Seq::filter);
    if s.len() > 0 {
        let u = s.drop_last();
        assert(!u.contains('-')) by {
            if u.contains('-') {
                let k = choose|k: int| 0 <= k < u.len() && u[k] == '-';
                assert(s[k] == '-');
            }
        }
        lemma_bare_of_bare(u);
        assert(s[s.len() - 1] != '-');
        assert(u.push(s.last()) =~= s);
    }
    assert(bare(s) =~= s);
}

proof fn lemma_bare_joined(parts: Seq<Seq<char>>)
    ensures
        bare(joined(full_pieces(parts), "-"@)) == bare(joined(parts, "-"@)),
    decreases parts.len(),
{
    reveal_strlit("-");
    assert(bare("-"@) =~= Seq::<char>::empty()) by {
        reveal_with_fuel(Seq::<_>::filter, 2);
        assert("-"@ =~= seq!['-']);
        assert("-"@.last() == '-');
        assert("-"@.drop_last() =~= Seq::<char>::empty());
    }
    if parts.len() > 0 {
        let u = parts.drop_last();
        let p = parts.last();
        lemma_bare_joined(u);
        let (fu, fp) = (full_pieces(u), full_pieces(parts));
        let whole = joined(parts, "-"@);
        if parts.len() == 1 {
            assert(joined(u, "-"@) =~= Seq::<char>::empty());
            assert(fu.len() == 0);
            if p.len() > 0 {
                assert(fp =~= seq![p]);
            } else {
                assert(p =~= Seq::<char>::empty());
            }
        } else {
            lemma_bare_add(joined(u, "-"@) + "-"@, p);
            lemma_bare_add(joined(u, "-"@), "-"@);
            assert(bare(whole) =~= bare(joined(u, "-"@)) + bare(p));
            if p.len() > 0 {
                assert(fp.drop_last() =~= fu);
                if fu.len() == 0 {
                    assert(fp =~= seq![p]);
                    assert(bare(joined(fu, "-"@)) =~= Seq::<char>::empty()) by {
                        reveal(Seq::filter);
                    }
                    assert(bare(joined(fp, "-"@)) =~= bare(joined(fu, "-"@)) + bare(p));
                } else {
                    lemma_bare_add(joined(fu, "-"@) + "-"@, p);
                    lemma_bare_add(joined(fu, "-"@), "-"@);
                    assert(bare(joined(fp, "-"@)) =~= bare(joined(fu, "-"@)) + bare(p));
                }
            } else {
                assert(bare(p) =~= Seq::<char>::empty()) by {
                    reveal(Seq::filter);
                }
            }
        }
    }
}

proof fn lemma_bare_kebab_chars(s: Seq<char>)
    ensures
        bare(s.map_values(|c: char| kebab_char(c))) == s.filter(
            |c: char| is_ascii_alnum(c),
        ).map_values(|c: char| ascii_lower(c)),
    decreases s.len(),
{
    reveal(Seq::filter);
    let k = |c: char| kebab_char(c);
    let l = |c: char| ascii_lower(c);
    let w = |c: char| is_ascii_alnum(c);
    if s.len() > 0 {
        lemma_bare_kebab_chars(s.drop_last());
        assert(s.map_values(k).drop_last() =~= s.drop_last().map_values(k));
        assert(s.map_values(k).last() == kebab_char(s.last()));
    }
    assert(bare(s.map_values(k)) =~= s.filter(w).map_values(l));
}

/// A name keeps exactly the letters and digits of what it was made from, in lower
/// case and in order; only separators are put between them. Where there are none,
/// the name is empty.
pub proof fn law_name_keeps_letters_and_digits(s: Seq<char>)
    ensures
        bare(kebab(s)) == s.filter(|c: char| is_ascii_alnum(c)).map_values(
            |c: char| ascii_lower(c),
        ),
        s.filter(|c: char| is_ascii_alnum(c)).len() == 0 <==> kebab(s).len() == 0,
{
    let t = s.map_values(|c: char| kebab_char(c));
    let pieces = split_on(t, '-');
    reveal_strlit("-");
    assert("-"@ =~= seq!['-']);
    crate::text::law_pieces_join_back(t, '-');
    lemma_bare_joined(pieces);
    lemma_bare_kebab_chars(s);
    let full = full_pieces(pieces);
    let letters = s.filter(|c: char| is_ascii_alnum(c));
    assert(letters.map_values(|c: char| ascii_lower(c)).len() == letters.len());
    if kebab(s).len() == 0 {
        assert(bare(kebab(s)) =~= Seq::<char>::empty()) by {
            reveal(Seq::filter);
        }
    } else {
        law_full_pieces_stay(pieces);
        let w = |p: Seq<char>| p.len() > 0;
        let places = crate::order::lemma_chosen_places(pieces, w);
        if full.len() == 0 {
            assert(kebab(s).len() == 0);
        }
        let first = full[0];
        assert(w(pieces[places[0]]));
        assert(!pieces[places[0]].contains('-'));
        lemma_bare_of_bare(first);
        lemma_first_part_is_in_front(full);
        let rest = kebab(s).skip(first.len() as int);
        assert(kebab(s) =~= first + rest);
        lemma_bare_add(first, rest);
        assert(bare(kebab(s)).len() >= first.len());
        assert(first.len() > 0);
    }
}

proof fn lemma_first_part_is_in_front(parts: Seq<Seq<char>>)
    requires
        parts.len() > 0,
    ensures
        parts[0].len() <= joined(parts, "-"@).len(),
        joined(parts, "-"@).take(parts[0].len() as int) == parts[0],
    decreases parts.len(),
{
    if parts.len() == 1 {
        assert(parts[0].take(parts[0].len() as int) =~= parts[0]);
    } else {
        let u = parts.drop_last();
        lemma_first_part_is_in_front(u);
        assert(joined(parts, "-"@).take(parts[0].len() as int) =~= joined(u, "-"@).take(
            parts[0].len() as int,
        ));
    }
}

/// A run is named after its skill where one is given, whatever its task, and
/// after its task where none is; behind the name stands the time, so runs of
/// different seconds never share an identifier.
pub proof fn law_run_is_named_after_its_skill(
    slug: Option<Seq<char>>,
    task: Seq<char>,
    other_task: Seq<char>,
    epoch: u64,
    other_epoch: u64,
)
    ensures
        slug is Some ==> run_id_of(slug, task, epoch) == run_id_of(slug, other_task, epoch),
        run_id_of(None, task, epoch) == run_id_of(Some(task), other_task, epoch),
        run_id_of(slug, task, epoch) == run_id_of(slug, task, other_epoch) ==> epoch == other_epoch,
        ({
            let source = match slug {
                Some(s) => s,
                None => task,
            };
            let name = if kebab(source).len() == 0 {
                "skill"@
            } else {
                kebab(source)
            };
            run_id_of(slug, task, epoch) == name + "-"@ + decimal(epoch as nat)
        }),
{
    let (a, b) = (run_id_of(slug, task, epoch), run_id_of(slug, task, other_epoch));
    let (da, db) = (decimal(epoch as nat), decimal(other_epoch as nat));
    crate::number::law_decimal_reads_back(epoch as nat);
    crate::number::law_decimal_reads_back(other_epoch as nat);
    let n = a.len() - da.len();
    assert(a.skip(n) =~= da);
    assert(b.skip(n) =~= db);
}

/// The audience is the one the profile gives, where that is a text with
/// something in it, and everybody otherwise.
pub proof fn law_audience_comes_from_the_profile(t: JsonTree, a: Seq<char>)
    ensures
        t.member("audience"@) == Some(JsonTree::Text(a)) && a.len() > 0 ==> audience_in(Some(t))
            == a,
        !(t.member("audience"@) matches Some(JsonTree::Text(s)) && s.len() > 0) ==> audience_in(
            Some(t),
        ) == "custom"@,
        audience_in(None) == "custom"@,
{
}

/// The scope of a ticket begins with the scope that was given. It is that scope
/// alone exactly where the audience is everybody; otherwise the audience is named
/// in it.
pub proof fn law_scope_names_the_audience(scope: Seq<char>, audience: Seq<char>)
    ensures
        full_scope(scope, audience).len() >= scope.len(),
        full_scope(scope, audience).take(scope.len() as int) == scope,
        full_scope(scope, audience) == scope <==> audience == "custom"@,
        audience != "custom"@ ==> full_scope(scope, audience) == scope + " · 청중 프로파일: "@
            + audience + "(이 청중 맞춤으로 산출·Implications Domain 질문 생략)"@,
{
    reveal_strlit(" · 청중 프로파일: ");
    assert(" · 청중 프로파일: "@.len() > 0);
    assert(full_scope(scope, audience).take(scope.len() as int) =~= scope);
}

/// The results of a run are to be put into a directory of its own.
pub proof fn law_results_go_to_the_run(run_id: Seq<char>, other: Seq<char>)
    requires
        run_id.len() <= other.len(),
    ensures
        exists|rest: Seq<char>|
            output_format(run_id) == #[trigger] ("산출물을 ~/.cys/_round/skill-out/"@ + run_id + "/"@
                + rest),
        output_format(run_id) == output_format(other) ==> run_id == other,
{
    let front = "산출물을 ~/.cys/_round/skill-out/"@;
    let back = "/ (절대경로) 아래에 저장하라(결정론 회수 위치·SB-6). 산출물에 '🔒 AI 보조 생성 · 오너 검수 전' 신뢰선 라벨을 부착하라(과대약속 금지)."@;
    reveal_strlit("/");
    reveal_strlit(
        "/ (절대경로) 아래에 저장하라(결정론 회수 위치·SB-6). 산출물에 '🔒 AI 보조 생성 · 오너 검수 전' 신뢰선 라벨을 부착하라(과대약속 금지).",
    );
    assert(back[0] == '/');
    assert("/"@ =~= seq!['/']);
    assert(output_format(run_id) =~= front + run_id + "/"@ + back.skip(1));
    if output_format(run_id) == output_format(other) {
        let n = front.len() as int;
        assert(output_format(run_id).subrange(n, n + run_id.len()) =~= run_id);
        assert(output_format(other).subrange(n, n + other.len()) =~= other);
    }
}

/// Each argument of a ticket stands behind its option.
pub proof fn law_ticket_arguments_stand_behind_their_options(
    script: Seq<char>,
    task: Seq<char>,
    scope: Seq<char>,
    success: Seq<char>,
    to: Seq<char>,
    run_id: Seq<char>,
    audience: Seq<char>,
)
    ensures
        ({
            let r = ticket_arg_texts(script, task, scope, success, to, run_id, audience);
            &&& r.len() == 13
            &&& r[0] == script
            &&& r[1] == "task-prompt"@
            &&& r[2] == "--task"@ && r[3] == task
            &&& r[4] == "--scope"@ && r[5] == full_scope(scope, audience)
            &&& r[6] == "--success"@ && r[7] == success
            &&& r[8] == "--to"@ && r[9] == to
            &&& r[10] == "--no-survival-gate"@
            &&& r[11] == "--output-format"@ && r[12] == output_format(run_id)
        }),
{
}

/// A skill is run under its name, with its ticket and its agent, closed after
/// the time that was given and under the identifier that was given, and with
/// neither option where it was not.
pub proof fn law_skill_arguments(
    name: Seq<char>,
    ticket: Seq<char>,
    agent: Seq<char>,
    close_after: Option<u64>,
    run_id: Option<Seq<char>>,
)
    ensures
        ({
            let r = skill_arg_texts(name, ticket, agent, close_after, run_id);
            let timed: int = if close_after is Some { 2 } else { 0 };
            let named: int = if run_id is Some { 2 } else { 0 };
            &&& r.len() == 7 + timed + named
            &&& r[0] == "skill"@ && r[1] == "run"@ && r[2] == name
            &&& r[3] == "--ticket"@ && r[4] == ticket
            &&& r[5] == "--agent"@ && r[6] == agent
            &&& close_after matches Some(s) ==> r[7] == "--close-after"@ && r[8] == decimal(
                s as nat,
            )
            &&& run_id matches Some(i) ==> r[7 + timed] == "--run-id"@ && r[8 + timed] == i
        }),
{
}

/// What the interface is told of a ticket, of a started skill and of the resource
/// check is what was given and what came back.
pub proof fn law_skill_answers_carry_what_was_given(
    name: Seq<char>,
    ticket: Seq<char>,
    run_id: Option<Seq<char>>,
    limit: Option<u64>,
    code: i32,
    report: JsonTree,
)
    ensures
        ticket_tree(name, ticket).member("run_id"@) == Some(JsonTree::Text(name)),
        ticket_tree(name, ticket).member("ticket"@) == Some(JsonTree::Text(ticket)),
        started_tree(name, run_id).member("name"@) == Some(JsonTree::Text(name)),
        started_tree(name, run_id).member("ok"@) == Some(JsonTree::Bool(true)),
        started_tree(name, run_id).at("run_id"@).text() == run_id,
        limit matches Some(n) ==> runs_tree(limit).member("limit"@) == Some(JsonTree::Unsigned(n)),
        limit is None ==> runs_tree(limit).member("limit"@) == Some(JsonTree::Unsigned(20)),
        gate_tree(code as int, report).member("report"@) == Some(report),
        match gate_tree(code as int, report).member("exit_code"@) {
            Some(JsonTree::Unsigned(n)) => n == code,
            Some(JsonTree::Negative(n)) => n == code,
            _ => false,
        },
{
    reveal_strlit("run_id");
    reveal_strlit("ticket");
    reveal_strlit("name");
    reveal_strlit("ok");
    reveal_strlit("limit");
    reveal_strlit("exit_code");
    reveal_strlit("report");
    assert("run_id"@.len() == 6);
    assert("ticket"@.len() == 6);
    assert("name"@.len() == 4);
    assert("ok"@.len() == 2);
    assert("limit"@.len() == 5);
    assert("exit_code"@.len() == 9);
    assert("report"@.len() == 6);
    assert("run_id"@[0] != "ticket"@[0]);
    assert("run_id"@[1] != "report"@[1]);
    assert("ticket"@[0] != "report"@[0]);
    reveal_with_fuel(crate::json::member_from, 8);
}

/// An identifier is made of lower case letters, digits and hyphens.
pub proof fn law_characters_of_an_identifier(c: char)
    ensures
        id_char(c) <==> ('a' <= c <= 'z') || ('0' <= c <= '9') || c == '-',
        is_ascii_alnum(c) ==> kebab_char(c) == ascii_lower(c),
        !is_ascii_alnum(c) ==> kebab_char(c) == '-',
{
}

} // verus!
