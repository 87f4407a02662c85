use cys_app::json::{parse, Json};
use cys_app::usage::{account_key, add_account, find_account, merge_account, usage_accounts_all};

fn json(s: &str) -> Json {
    parse(s).unwrap()
}

#[test]
fn newer_report_wins_and_profiles_are_kept() {
    let cur = json(
        r#"{"provider":"p","account_id":"a","profiles":["z","a"],"scoped":[1],"updated_at":5}"#,
    );
    let new = json(
        r#"{"provider":"p","account_id":"a","profiles":["m","a"],"scoped":[2],"updated_at":6}"#,
    );
    assert_eq!(
        merge_account(&cur, &new, true, false),
        json(
            r#"{"account_id":"a","profiles":["a","m","z"],"provider":"p","scoped":[1],"updated_at":6}"#
        )
    );
    assert_eq!(
        merge_account(&cur, &new, false, true),
        json(
            r#"{"account_id":"a","profiles":["a","m","z"],"provider":"p","scoped":[2],"updated_at":5}"#
        )
    );
    assert_eq!(
        merge_account(&Json::Null, &Json::Null, false, false),
        json(r#"{"profiles":[],"scoped":null}"#)
    );
}

#[test]
fn accounts_are_known_by_provider_and_number() {
    let mut known = vec![];
    add_account(&mut known, json(r#"{"provider":"q","account_id":"1","label":"x"}"#), true, false);
    add_account(&mut known, json(r#"{"provider":"p","account_id":"1","label":"y"}"#), true, false);
    add_account(&mut known, json(r#"{"provider":"p","account_id":"2","label":"b"}"#), true, false);
    add_account(&mut known, json(r#"{"provider":"q","account_id":"1","label":"z"}"#), false, false);
    assert_eq!(known.len(), 3);
    assert_eq!(account_key(&known[0]), ("q".to_string(), "1".to_string()));
    assert_eq!(find_account(&known, &json(r#"{"provider":"p","account_id":"2"}"#)), Some(2));
    assert_eq!(find_account(&known, &json("{}")), None);
    let all = usage_accounts_all(&known);
    let labels: Vec<&str> = all
        .get("accounts")
        .unwrap()
        .as_array()
        .unwrap()
        .iter()
        .map(|a| a.get("label").unwrap().as_str().unwrap())
        .collect();
    assert_eq!(labels, vec!["b", "y", "x"]);
}

#[test]
fn accounts_sum_up_all_their_reports() {
    let reports = [
        r#"{"provider":"p","account_id":"1","updated_at":5,"profiles":["z"],"scoped":7,"label":"a"}"#,
        r#"{"provider":"q","account_id":"1","updated_at":1,"profiles":["y","x"],"scoped":1}"#,
        r#"{"provider":"p","account_id":"1","updated_at":8,"profiles":["b"],"scoped":2,"label":"b"}"#,
        r#"{"provider":"p","account_id":"1","updated_at":8,"profiles":["a","z"],"scoped":7,"label":"c"}"#,
        r#"{"provider":"p","account_id":"1","updated_at":6,"profiles":[],"scoped":9,"label":"d"}"#,
    ];
    let time = |j: &Json, key: &str| j.get(key).unwrap().as_u64().unwrap();
    let mut known = vec![];
    for text in reports {
        let report = json(text);
        let (newer, scoped_newer) = match find_account(&known, &report) {
            Some(i) => (
                time(&report, "updated_at") > time(&known[i], "updated_at"),
                time(&report, "scoped") > time(&known[i], "scoped"),
            ),
            None => (false, false),
        };
        add_account(&mut known, report, newer, scoped_newer);
    }
    assert_eq!(
        known,
        vec![
            json(
                r#"{"account_id":"1","label":"b","profiles":["a","b","z"],"provider":"p","scoped":9,"updated_at":8}"#
            ),
            json(
                r#"{"account_id":"1","profiles":["y","x"],"provider":"q","scoped":1,"updated_at":1}"#
            ),
        ]
    );
}
