//! The reports as the interface reads them.

use vstd::prelude::*;

use crate::install::{CliInstallStatusReport, InstallCliReport};
use crate::json::{object, put, text, text_or_null, texts_json, Json};
use crate::json::{members, text_array, text_tree, JsonTree};
use crate::text::{opt_text, texts};
use crate::uninstall::UninstallCliReport;

verus! {

broadcast use crate::json::group_json_views;

/// What the interface reads of an installation. Every field is there, null
/// where it has no value.
pub open spec fn install_tree(rep: InstallCliReport) -> JsonTree {
    JsonTree::Object(
        seq![
            ("cys_link"@, JsonTree::Text(rep.cys_link@)),
            ("cysd_link"@, JsonTree::Text(rep.cysd_link@)),
            ("effective_cys"@, text_tree(opt_text(rep.effective_cys))),
            ("ok"@, JsonTree::Bool(rep.ok)),
            ("shadowed_by"@, text_tree(opt_text(rep.shadowed_by))),
            ("source_cys"@, JsonTree::Text(rep.source_cys@)),
            ("status"@, JsonTree::Text(rep.status@)),
            ("target_dir"@, JsonTree::Text(rep.target_dir@)),
            ("unverified_reason"@, text_tree(opt_text(rep.unverified_reason))),
            ("warnings"@, text_array(texts(rep.warnings@))),
        ],
    )
}

/// What the interface reads of an installation.
pub fn install_report(rep: &InstallCliReport) -> (r: Json)
    ensures
        r@ == install_tree(*rep),
{
    let mut m = object();
    put(&mut m, "cys_link", text(rep.cys_link.as_str()));
    put(&mut m, "cysd_link", text(rep.cysd_link.as_str()));
    put(&mut m, "effective_cys", text_or_null(&rep.effective_cys));
    put(&mut m, "ok", Json::Bool(rep.ok));
    put(&mut m, "shadowed_by", text_or_null(&rep.shadowed_by));
    put(&mut m, "source_cys", text(rep.source_cys.as_str()));
    put(&mut m, "status", text(rep.status.as_str()));
    put(&mut m, "target_dir", text(rep.target_dir.as_str()));
    put(&mut m, "unverified_reason", text_or_null(&rep.unverified_reason));
    put(&mut m, "warnings", texts_json(&rep.warnings));
    assert(members(m@) =~= install_tree(*rep)->Object_0);
    Json::Object(m)
}

/// What the interface reads of a removal.
pub open spec fn uninstall_tree(rep: UninstallCliReport) -> JsonTree {
    JsonTree::Object(
        seq![
            ("ok"@, JsonTree::Bool(rep.ok)),
            ("removed"@, text_array(texts(rep.removed@))),
            ("restored"@, text_array(texts(rep.restored@))),
            ("skipped"@, text_array(texts(rep.skipped@))),
            ("skipped_benign"@, JsonTree::Bool(rep.skipped_benign)),
            ("skipped_reasons"@, text_array(texts(rep.skipped_reasons@))),
            ("warnings"@, text_array(texts(rep.warnings@))),
        ],
    )
}

/// What the interface reads of a removal.
pub fn uninstall_report(rep: &UninstallCliReport) -> (r: Json)
    ensures
        r@ == uninstall_tree(*rep),
{
    let mut m = object();
    put(&mut m, "ok", Json::Bool(rep.ok));
    put(&mut m, "removed", texts_json(&rep.removed));
    put(&mut m, "restored", texts_json(&rep.restored));
    put(&mut m, "skipped", texts_json(&rep.skipped));
    put(&mut m, "skipped_benign", Json::Bool(rep.skipped_benign));
    put(&mut m, "skipped_reasons", texts_json(&rep.skipped_reasons));
    put(&mut m, "warnings", texts_json(&rep.warnings));
    assert(members(m@) =~= uninstall_tree(*rep)->Object_0);
    Json::Object(m)
}

/// What the interface reads of how the links stand.
pub open spec fn status_tree(rep: CliInstallStatusReport) -> JsonTree {
    JsonTree::Object(
        seq![
            ("backups"@, text_array(texts(rep.backups@))),
            ("cys_link"@, JsonTree::Text(rep.cys_link@)),
            ("cysd_link"@, JsonTree::Text(rep.cysd_link@)),
            ("installed"@, JsonTree::Bool(rep.installed)),
            ("notes"@, text_array(texts(rep.notes@))),
            ("platform_supported"@, JsonTree::Bool(rep.platform_supported)),
            ("state"@, JsonTree::Text(rep.state@)),
        ],
    )
}

/// What the interface reads of how the links stand.
pub fn status_report(rep: &CliInstallStatusReport) -> (r: Json)
    ensures
        r@ == status_tree(*rep),
{
    let mut m = object();
    put(&mut m, "backups", texts_json(&rep.backups));
    put(&mut m, "cys_link", text(rep.cys_link.as_str()));
    put(&mut m, "cysd_link", text(rep.cysd_link.as_str()));
    put(&mut m, "installed", Json::Bool(rep.installed));
    put(&mut m, "notes", texts_json(&rep.notes));
    put(&mut m, "platform_supported", Json::Bool(rep.platform_supported));
    put(&mut m, "state", text(rep.state.as_str()));
    assert(members(m@) =~= status_tree(*rep)->Object_0);
    Json::Object(m)
}

/// The interface reads every field of an installation's report as it is, null for
/// what has no value.
pub proof fn law_install_report_is_complete(rep: InstallCliReport)
    ensures
        ({
            let t = install_tree(rep);
            &&& t.member("ok"@) == Some(JsonTree::Bool(rep.ok))
            &&& t.member("status"@) == Some(JsonTree::Text(rep.status@))
            &&& t.member("target_dir"@) == Some(JsonTree::Text(rep.target_dir@))
            &&& t.member("cys_link"@) == Some(JsonTree::Text(rep.cys_link@))
            &&& t.member("cysd_link"@) == Some(JsonTree::Text(rep.cysd_link@))
            &&& t.member("source_cys"@) == Some(JsonTree::Text(rep.source_cys@))
            &&& t.member("effective_cys"@) is Some
            &&& t.at("effective_cys"@).text() == opt_text(rep.effective_cys)
            &&& t.member("shadowed_by"@) is Some
            &&& t.at("shadowed_by"@).text() == opt_text(rep.shadowed_by)
            &&& t.member("unverified_reason"@) is Some
            &&& t.at("unverified_reason"@).text() == opt_text(rep.unverified_reason)
            &&& t.member("warnings"@) matches Some(JsonTree::Array(a)) && a.len()
                == rep.warnings@.len() && forall|i: int|
                0 <= i < a.len() ==> #[trigger] a[i] == JsonTree::Text(rep.warnings@[i]@)
        }),
{
    reveal_strlit("cys_link");
    reveal_strlit("cysd_link");
    reveal_strlit("effective_cys");
    reveal_strlit("ok");
    reveal_strlit("shadowed_by");
    reveal_strlit("source_cys");
    reveal_strlit("status");
    reveal_strlit("target_dir");
    reveal_strlit("unverified_reason");
    reveal_strlit("warnings");
    assert("cys_link"@.len() == 8);
    assert("cysd_link"@.len() == 9);
    assert("effective_cys"@.len() == 13);
    assert("ok"@.len() == 2);
    assert("shadowed_by"@.len() == 11);
    assert("source_cys"@.len() == 10);
    assert("status"@.len() == 6);
    assert("target_dir"@.len() == 10);
    assert("unverified_reason"@.len() == 17);
    assert("warnings"@.len() == 8);
    assert("cys_link"@[0] != "warnings"@[0]);
    assert("source_cys"@[0] != "target_dir"@[0]);
    reveal_with_fuel(crate::json::member_from, 11);
}

/// The interface reads every field of a removal's report as it is.
pub proof fn law_uninstall_report_is_complete(rep: UninstallCliReport)
    ensures
        ({
            let t = uninstall_tree(rep);
            &&& t.member("ok"@) == Some(JsonTree::Bool(rep.ok))
            &&& t.member("skipped_benign"@) == Some(JsonTree::Bool(rep.skipped_benign))
            &&& t.member("removed"@) matches Some(JsonTree::Array(a)) && a.len()
                == rep.removed@.len() && forall|i: int|
                0 <= i < a.len() ==> #[trigger] a[i] == JsonTree::Text(rep.removed@[i]@)
            &&& t.member("restored"@) matches Some(JsonTree::Array(a)) && a.len()
                == rep.restored@.len() && forall|i: int|
                0 <= i < a.len() ==> #[trigger] a[i] == JsonTree::Text(rep.restored@[i]@)
            &&& t.member("skipped"@) matches Some(JsonTree::Array(a)) && a.len()
                == rep.skipped@.len() && forall|i: int|
                0 <= i < a.len() ==> #[trigger] a[i] == JsonTree::Text(rep.skipped@[i]@)
            &&& t.member("skipped_reasons"@) matches Some(JsonTree::Array(a)) && a.len()
                == rep.skipped_reasons@.len() && forall|i: int|
                0 <= i < a.len() ==> #[trigger] a[i] == JsonTree::Text(rep.skipped_reasons@[i]@)
            &&& t.member("warnings"@) matches Some(JsonTree::Array(a)) && a.len()
                == rep.warnings@.len() && forall|i: int|
                0 <= i < a.len() ==> #[trigger] a[i] == JsonTree::Text(rep.warnings@[i]@)
        }),
{
    reveal_strlit("ok");
    reveal_strlit("removed");
    reveal_strlit("restored");
    reveal_strlit("skipped");
    reveal_strlit("skipped_benign");
    reveal_strlit("skipped_reasons");
    reveal_strlit("warnings");
    assert("ok"@.len() == 2);
    assert("removed"@.len() == 7);
    assert("restored"@.len() == 8);
    assert("skipped"@.len() == 7);
    assert("skipped_benign"@.len() == 14);
    assert("skipped_reasons"@.len() == 15);
    assert("warnings"@.len() == 8);
    assert("removed"@[0] != "skipped"@[0]);
    assert("restored"@[0] != "warnings"@[0]);
    reveal_with_fuel(crate::json::member_from, 8);
}

/// The interface reads every field of the report on the links as it is.
pub proof fn law_status_report_is_complete(rep: CliInstallStatusReport)
    ensures
        ({
            let t = status_tree(rep);
            &&& t.member("platform_supported"@) == Some(JsonTree::Bool(rep.platform_supported))
            &&& t.member("installed"@) == Some(JsonTree::Bool(rep.installed))
            &&& t.member("state"@) == Some(JsonTree::Text(rep.state@))
            &&& t.member("cys_link"@) == Some(JsonTree::Text(rep.cys_link@))
            &&& t.member("cysd_link"@) == Some(JsonTree::Text(rep.cysd_link@))
            &&& t.member("notes"@) matches Some(JsonTree::Array(a)) && a.len() == rep.notes@.len()
                && forall|i: int|
                0 <= i < a.len() ==> #[trigger] a[i] == JsonTree::Text(rep.notes@[i]@)
            &&& t.member("backups"@) matches Some(JsonTree::Array(a)) && a.len()
                == rep.backups@.len() && forall|i: int|
                0 <= i < a.len() ==> #[trigger] a[i] == JsonTree::Text(rep.backups@[i]@)
        }),
{
    reveal_strlit("backups");
    reveal_strlit("cys_link");
    reveal_strlit("cysd_link");
    reveal_strlit("installed");
    reveal_strlit("notes");
    reveal_strlit("platform_supported");
    reveal_strlit("state");
    assert("backups"@.len() == 7);
    assert("cys_link"@.len() == 8);
    assert("cysd_link"@.len() == 9);
    assert("installed"@.len() == 9);
    assert("notes"@.len() == 5);
    assert("platform_supported"@.len() == 18);
    assert("state"@.len() == 5);
    assert("cysd_link"@[0] != "installed"@[0]);
    assert("notes"@[0] != "state"@[0]);
    reveal_with_fuel(crate::json::member_from, 8);
}

} // verus!
