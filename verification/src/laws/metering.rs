//! What the metrics show.
use vstd::prelude::*;

use crate::keys::{K_SHARED, K_SHARED_DRAFT};
use crate::laws::events::active_at;
use crate::laws::order::{is_logged, law_audit_gives_what_is_asked_for};
use crate::laws::paths::lemma_prefix_of_sum;
use crate::laws::rendering::has_part;
use crate::laws::sound::sound;
use crate::metrics::{
    Counts, HttpCounters, RaftStatus, Totals, counts_of, metric, metrics, raft_metrics, totals,
    with_branches,
};
use crate::model::{AuditEntryView, ProjectView};
use crate::step::{audit, branches, projects, shared_under};
use crate::store::State;
use crate::text::dec;

verus! {

/// The line of a metric that has its value.
pub open spec fn line_of(name: Seq<char>, value: u64) -> Seq<char> {
    name + seq![' '] + dec(value as nat) + seq!['\n']
}

proof fn lemma_metric_has_line(name: Seq<char>, help: Seq<char>, kind: Seq<char>, value: u64, before: Seq<char>)
    ensures
        has_part(before + metric(name, help, kind, value), line_of(name, value)),
        before.is_prefix_of(before + metric(name, help, kind, value)),
{
    reveal_strlit(" ");
    reveal_strlit("\n");
    assert(" "@ =~= seq![' ']);
    assert("\n"@ =~= seq!['\n']);
    let head = "# HELP "@ + name + " "@ + help + "\n# TYPE "@ + name + " "@ + kind + "\n"@;
    let m = metric(name, help, kind, value);
    assert(m =~= head + line_of(name, value));
    let all = before + m;
    assert(all =~= ((before + head) + line_of(name, value)) + Seq::<char>::empty());
    lemma_prefix_of_sum(before, m);
}

proof fn lemma_part_stays(a: Seq<char>, b: Seq<char>, part: Seq<char>)
    requires
        has_part(a, part),
        a.is_prefix_of(b),
    ensures
        has_part(b, part),
{
    let (x, y) = choose|x: Seq<char>, y: Seq<char>| a == #[trigger] ((x + part) + y);
    let rest = b.skip(a.len() as int);
    assert(b =~= a + rest);
    assert(b =~= (x + part) + (y + rest));
}

proof fn lemma_prefix_chain(a: Seq<char>, b: Seq<char>, c: Seq<char>)
    requires
        a.is_prefix_of(b),
        b.is_prefix_of(c),
    ensures
        a.is_prefix_of(c),
{
    assert(c.subrange(0, a.len() as int) =~= a);
}

/// Every count has its line in the metrics, with its own name.
pub proof fn law_metrics_show_the_counts(
    c: Counts,
    raft: Option<RaftStatus>,
    master_key_ok: bool,
    http: HttpCounters,
)
    ensures
        ({
            let text = metrics(c, raft, master_key_ok, http);
            let ok = if master_key_ok {
                1u64
            } else {
                0u64
            };
            &&& has_part(text, line_of("dsh_projects"@, c.projects))
            &&& has_part(text, line_of("dsh_branches"@, c.totals.branches))
            &&& has_part(text, line_of("dsh_versions"@, c.totals.versions))
            &&& has_part(text, line_of("dsh_shared_items"@, c.shared))
            &&& has_part(text, line_of("dsh_shared_drafts"@, c.shared_drafts))
            &&& has_part(text, line_of("dsh_audit_entries"@, c.audit))
            &&& has_part(text, line_of("dsh_gray_active"@, c.totals.gray))
            &&& has_part(text, line_of("dsh_gray_publish_total"@, c.gray_publish))
            &&& has_part(text, line_of("dsh_gray_promote_total"@, c.gray_promote))
            &&& has_part(text, line_of("dsh_gray_abort_total"@, c.gray_abort))
            &&& has_part(text, line_of("dsh_http_requests_total"@, http.requests))
            &&& has_part(text, line_of("dsh_http_5xx_total"@, http.errors))
            &&& has_part(text, line_of("dsh_master_key_ok"@, ok))
        }),
{
    let text = metrics(c, raft, master_key_ok, http);
    let ok = if master_key_ok {
        1u64
    } else {
        0u64
    };
    let s0 = Seq::<char>::empty();
    let s1 = s0 + metric("dsh_projects"@, "项目数"@, "gauge"@, c.projects);
    lemma_metric_has_line("dsh_projects"@, "项目数"@, "gauge"@, c.projects, s0);
    let s2 = s1 + metric("dsh_branches"@, "分支总数"@, "gauge"@, c.totals.branches);
    lemma_metric_has_line("dsh_branches"@, "分支总数"@, "gauge"@, c.totals.branches, s1);
    let s3 = s2 + metric("dsh_versions"@, "分支活动版本总和"@, "gauge"@, c.totals.versions);
    lemma_metric_has_line("dsh_versions"@, "分支活动版本总和"@, "gauge"@, c.totals.versions, s2);
    let s4 = s3 + metric("dsh_shared_items"@, "已发布共享项数"@, "gauge"@, c.shared);
    lemma_metric_has_line("dsh_shared_items"@, "已发布共享项数"@, "gauge"@, c.shared, s3);
    let s5 = s4 + metric("dsh_shared_drafts"@, "共享草稿数"@, "gauge"@, c.shared_drafts);
    lemma_metric_has_line("dsh_shared_drafts"@, "共享草稿数"@, "gauge"@, c.shared_drafts, s4);
    let s6 = s5 + metric("dsh_audit_entries"@, "审计条目数"@, "gauge"@, c.audit);
    lemma_metric_has_line("dsh_audit_entries"@, "审计条目数"@, "gauge"@, c.audit, s5);
    let s7 = s6 + metric("dsh_gray_active"@, "活跃灰度分支数（gray_seq>0）"@, "gauge"@, c.totals.gray);
    lemma_metric_has_line("dsh_gray_active"@, "活跃灰度分支数（gray_seq>0）"@, "gauge"@, c.totals.gray, s6);
    let s8 = s7 + metric("dsh_gray_publish_total"@, "灰度gray_publish累计（审计窗口内）"@, "counter"@, c.gray_publish);
    lemma_metric_has_line("dsh_gray_publish_total"@, "灰度gray_publish累计（审计窗口内）"@, "counter"@, c.gray_publish, s7);
    let s9 = s8 + metric("dsh_gray_promote_total"@, "灰度gray_promote累计（审计窗口内）"@, "counter"@, c.gray_promote);
    lemma_metric_has_line("dsh_gray_promote_total"@, "灰度gray_promote累计（审计窗口内）"@, "counter"@, c.gray_promote, s8);
    let s10 = s9 + metric("dsh_gray_abort_total"@, "灰度gray_abort累计（审计窗口内）"@, "counter"@, c.gray_abort);
    lemma_metric_has_line("dsh_gray_abort_total"@, "灰度gray_abort累计（审计窗口内）"@, "counter"@, c.gray_abort, s9);
    let s11 = s10 + metric("dsh_http_requests_total"@, "HTTP 请求总数（进程内）"@, "counter"@, http.requests);
    lemma_metric_has_line("dsh_http_requests_total"@, "HTTP 请求总数（进程内）"@, "counter"@, http.requests, s10);
    let s12 = s11 + metric("dsh_http_5xx_total"@, "HTTP 5xx 响应数（进程内）"@, "counter"@, http.errors);
    lemma_metric_has_line("dsh_http_5xx_total"@, "HTTP 5xx 响应数（进程内）"@, "counter"@, http.errors, s11);
    let s13 = s12 + metric("dsh_master_key_ok"@, "主密钥是否就绪（0/1）"@, "gauge"@, ok);
    lemma_metric_has_line("dsh_master_key_ok"@, "主密钥是否就绪（0/1）"@, "gauge"@, ok, s12);
    assert(s1 =~= metric("dsh_projects"@, "项目数"@, "gauge"@, c.projects));
    assert(text == s13 + raft_metrics(raft));
    lemma_prefix_of_sum(s13, raft_metrics(raft));
    lemma_prefix_chain(s12, s13, text);
    lemma_prefix_chain(s11, s12, text);
    lemma_prefix_chain(s10, s11, text);
    lemma_prefix_chain(s9, s10, text);
    lemma_prefix_chain(s8, s9, text);
    lemma_prefix_chain(s7, s8, text);
    lemma_prefix_chain(s6, s7, text);
    lemma_prefix_chain(s5, s6, text);
    lemma_prefix_chain(s4, s5, text);
    lemma_prefix_chain(s3, s4, text);
    lemma_prefix_chain(s2, s3, text);
    lemma_prefix_chain(s1, s2, text);
    lemma_part_stays(s1, text, line_of("dsh_projects"@, c.projects));
    lemma_part_stays(s2, text, line_of("dsh_branches"@, c.totals.branches));
    lemma_part_stays(s3, text, line_of("dsh_versions"@, c.totals.versions));
    lemma_part_stays(s4, text, line_of("dsh_shared_items"@, c.shared));
    lemma_part_stays(s5, text, line_of("dsh_shared_drafts"@, c.shared_drafts));
    lemma_part_stays(s6, text, line_of("dsh_audit_entries"@, c.audit));
    lemma_part_stays(s7, text, line_of("dsh_gray_active"@, c.totals.gray));
    lemma_part_stays(s8, text, line_of("dsh_gray_publish_total"@, c.gray_publish));
    lemma_part_stays(s9, text, line_of("dsh_gray_promote_total"@, c.gray_promote));
    lemma_part_stays(s10, text, line_of("dsh_gray_abort_total"@, c.gray_abort));
    lemma_part_stays(s11, text, line_of("dsh_http_requests_total"@, http.requests));
    lemma_part_stays(s12, text, line_of("dsh_http_5xx_total"@, http.errors));
    lemma_part_stays(s13, text, line_of("dsh_master_key_ok"@, ok));
}

/// The number of branches of the first `n` projects.
pub open spec fn all_branches(s: State, list: Seq<ProjectView>, n: nat) -> nat
    decreases n,
{
    if n == 0 {
        0
    } else {
        all_branches(s, list, (n - 1) as nat) + branches(s, list[n - 1].id).len()
    }
}

/// The sum of the active versions of the first `n` branches.
pub open spec fn versions_in(s: State, id: Seq<char>, names: Seq<Seq<char>>, n: nat) -> nat
    decreases n,
{
    if n == 0 {
        0
    } else {
        versions_in(s, id, names, (n - 1) as nat) + active_at(s, id, names[n - 1]) as nat
    }
}

/// The sum of the active versions of all branches of the first `n` projects.
pub open spec fn all_versions(s: State, list: Seq<ProjectView>, n: nat) -> nat
    decreases n,
{
    if n == 0 {
        0
    } else {
        all_versions(s, list, (n - 1) as nat) + versions_in(
            s,
            list[n - 1].id,
            branches(s, list[n - 1].id),
            branches(s, list[n - 1].id).len(),
        )
    }
}

proof fn lemma_branch_totals(t: Totals, s: State, id: Seq<char>, names: Seq<Seq<char>>, n: nat)
    requires
        n <= names.len(),
        t.branches + n <= u64::MAX,
        t.versions + versions_in(s, id, names, n) <= u64::MAX,
    ensures
        with_branches(t, s, id, names, n).branches == t.branches + n,
        with_branches(t, s, id, names, n).versions == t.versions + versions_in(s, id, names, n),
    decreases n,
{
    if n > 0 {
        lemma_branch_totals(t, s, id, names, (n - 1) as nat);
    }
}

/// The totals count the branches, and add up the active versions, as long as they fit.
pub proof fn law_totals_add_up(s: State, list: Seq<ProjectView>, n: nat)
    requires
        n <= list.len(),
        all_branches(s, list, n) <= u64::MAX,
        all_versions(s, list, n) <= u64::MAX,
    ensures
        totals(s, list, n).branches == all_branches(s, list, n),
        totals(s, list, n).versions == all_versions(s, list, n),
    decreases n,
{
    if n > 0 {
        law_totals_add_up(s, list, (n - 1) as nat);
        let names = branches(s, list[n - 1].id);
        lemma_branch_totals(
            totals(s, list, (n - 1) as nat),
            s,
            list[n - 1].id,
            names,
            names.len(),
        );
    }
}

/// The counts of a state: its projects, what its shared library has and drafts, and the number of the newest
/// audit entry.
pub proof fn law_counts_are_those_of_the_state(s: State, e: AuditEntryView)
    requires
        s.dom().finite(),
        sound(s),
        projects(s).len() <= u64::MAX,
        shared_under(s, K_SHARED@).len() <= u64::MAX,
        shared_under(s, K_SHARED_DRAFT@).len() <= u64::MAX,
    ensures
        counts_of(s).projects == projects(s).len(),
        counts_of(s).shared == shared_under(s, K_SHARED@).len(),
        counts_of(s).shared_drafts == shared_under(s, K_SHARED_DRAFT@).len(),
        is_logged(s, e) ==> counts_of(s).audit >= e.seq,
{
    law_audit_gives_what_is_asked_for(s, None, None, None, 1, e);
    let list = audit(s, None, None, None, 1);
    if is_logged(s, e) && list.contains(e) {
        let i = choose|i: int| 0 <= i < list.len() && list[i] == e;
        assert(list[0] == e);
    }
}

} // verus!
