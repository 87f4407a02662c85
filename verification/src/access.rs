//! What the interface may open, read and show of the local machine.

use base64::Engine;
use vstd::prelude::*;

use crate::json::{object, put, text, Json};
use crate::json::{members, trees, JsonTree};
use crate::number::decimal_text;
use crate::number::decimal;
use crate::order::order_by;
use crate::order::stable_order;
use crate::path::{file_name, parent};
use crate::path::{file_name_of, parent_of};
use crate::text::{
    ascii_alnum, chars_of, ends_with, find_last, lines, replace, same_text, split, strip_prefix,
    to_ascii_lower, trim, until,
};
use crate::text::{
    after_prefix, ascii_lower, before_first, finishes_with, is_ascii_alnum, last_index, lines_of,
    pair_texts, replaced, split_on, str_texts, texts, trimmed,
};

verus! {

broadcast use crate::json::group_json_views;

/// What `base64`'s standard engine decodes a text to: the bytes, or its error
/// in words.
pub uninterp spec fn decoded_base64(text: Seq<char>) -> Result<Seq<u8>, Seq<char>>;

/// What `base64`'s standard engine writes for bytes.
pub uninterp spec fn encoded_base64(bytes: Seq<u8>) -> Seq<char>;

/// What `str::to_lowercase` makes of a text.
pub uninterp spec fn lowercase(s: Seq<char>) -> Seq<char>;

/// What `String::from_utf8_lossy` makes of bytes.
pub uninterp spec fn lossy_text(bytes: Seq<u8>) -> Seq<char>;

/// The standard engine decodes `text` to `bytes`.
pub open spec fn decodes_to(text: Seq<char>, bytes: Seq<u8>) -> bool {
    decoded_base64(text) == Ok::<Seq<u8>, Seq<char>>(bytes)
}

/// `base64::engine::general_purpose::STANDARD.decode`: what it gives for a text
/// is a function of that text alone.
#[verifier::external_body]
fn base64_decode(data: &str) -> (r: Result<Vec<u8>, String>)
    ensures
        match r {
            Ok(b) => decoded_base64(data@) == Ok::<_, Seq<char>>(b@),
            Err(e) => decoded_base64(data@) == Err::<Seq<u8>, _>(e@),
        },
{
    base64::engine::general_purpose::STANDARD.decode(data.as_bytes()).map_err(|e| e.to_string())
}

/// `base64::engine::general_purpose::STANDARD.encode`: the text for bytes is a
/// function of those bytes alone, and the same engine decodes it to them. The
/// call needs the length of the text to fit.
#[verifier::external_body]
fn base64_encode(bytes: &[u8]) -> (r: String)
    requires
        bytes@.len() / 3 * 4 + 4 <= usize::MAX,
    ensures
        r@ == encoded_base64(bytes@),
        decodes_to(r@, bytes@),
{
    base64::engine::general_purpose::STANDARD.encode(bytes)
}

/// `str::to_lowercase`: the lower case of a text is a function of that text
/// alone.
#[verifier::external_body]
fn lower(s: &str) -> (r: String)
    ensures
        r@ == lowercase(s@),
{
    s.to_lowercase()
}

/// `String::from_utf8_lossy`: the text for bytes is a function of those bytes
/// alone, and bytes that are valid UTF-8 are the encoding of that text.
#[verifier::external_body]
fn from_utf8_lossy(bytes: &[u8]) -> (r: String)
    ensures
        r@ == lossy_text(bytes@),
        vstd::utf8::valid_utf8(bytes@) ==> vstd::utf8::encode_utf8(r@) == bytes@,
{
    String::from_utf8_lossy(bytes).into_owned()
}

/// The text for the bytes that a process printed.
pub fn text_of_bytes(bytes: &[u8]) -> (r: String)
    ensures
        r@ == lossy_text(bytes@),
        vstd::utf8::valid_utf8(bytes@) ==> vstd::utf8::encode_utf8(r@) == bytes@,
{
    from_utf8_lossy(bytes)
}

/// A piece of a terminal's output as it is sent to the interface, which decodes
/// it to the same bytes.
pub fn stream_chunk(bytes: &[u8]) -> (r: String)
    requires
        bytes@.len() / 3 * 4 + 4 <= usize::MAX,
    ensures
        r@ == encoded_base64(bytes@),
        decodes_to(r@, bytes@),
{
    base64_encode(bytes)
}

/// The extension to save an image under: the one given where it is letters and
/// digits alone.
pub open spec fn safe_extension(ext: Seq<char>) -> Seq<char> {
    if ext.len() > 0 && forall|i: int| 0 <= i < ext.len() ==> is_ascii_alnum(#[trigger] ext[i]) {
        ext
    } else {
        "png"@
    }
}

/// The name that a pasted image is saved under.
pub fn pasted_image_name(millis: u64, ext: &str) -> (r: String)
    ensures
        r@ == "paste-"@ + decimal(millis as nat) + "."@ + safe_extension(ext@),
{
    let v = chars_of(ext);
    let mut ok: bool = v.len() > 0;
    let mut i: usize = 0;
    while i < v.len()
        invariant
            v@ == ext@,
            i <= v.len(),
            ok <==> v.len() > 0 && forall|j: int| 0 <= j < i ==> is_ascii_alnum(#[trigger] ext@[j]),
        decreases v.len() - i,
    {
        if !ascii_alnum(v[i]) {
            assert(!is_ascii_alnum(ext@[i as int]));
            ok = false;
        }
        i += 1;
    }
    let mut out = "paste-".to_owned();
    out.append(decimal_text(millis).as_str());
    out.append(".");
    if ok {
        out.append(ext);
    } else {
        out.append("png");
    }
    out
}

/// The bytes of a pasted image and the name to save them under.
pub fn save_pasted_image(data_b64: &str, ext: &str, millis: u64) -> (r: Result<
    (String, Vec<u8>),
    String,
>)
    ensures
        match decoded_base64(data_b64@) {
            Ok(bytes) => r matches Ok(p) && p.1@ == bytes && p.0@ == "paste-"@ + decimal(
                millis as nat,
            ) + "."@ + safe_extension(ext@),
            Err(why) => r matches Err(e) && e@ == why,
        },
{
    match base64_decode(data_b64) {
        Ok(bytes) => Ok((pasted_image_name(millis, ext), bytes)),
        Err(e) => Err(e),
    }
}

/// What a directory's entries are sorted by: directories first, then the lower
/// case of the name.
pub open spec fn entry_keys(entries: Seq<(String, bool)>) -> Seq<(Seq<char>, Seq<char>)> {
    entries.map_values(
        |e: (String, bool)|
            (
                if e.1 {
                    "0"@
                } else {
                    "1"@
                },
                lowercase(e.0@),
            ),
    )
}

/// A directory entry for the interface.
pub open spec fn entry_tree(e: (String, bool)) -> JsonTree {
    JsonTree::Object(seq![("is_dir"@, JsonTree::Bool(e.1)), ("name"@, JsonTree::Text(e.0@))])
}

/// The entries in the given order.
pub open spec fn listing(entries: Seq<(String, bool)>, order: Seq<usize>) -> Seq<JsonTree> {
    order.map_values(|i: usize| entry_tree(entries[i as int]))
}

/// A directory's entries for the interface: directories first, then by the
/// lower case of the name, equal ones as they were read.
pub fn list_dir(entries: &Vec<(String, bool)>) -> (r: Json)
    ensures
        exists|order: Seq<usize>| #[trigger]
            stable_order(entry_keys(entries@), order, entries@.len() as int) && r@
                == JsonTree::Array(listing(entries@, order)),
{
    let mut keys: Vec<(String, String)> = Vec::new();
    let mut i: usize = 0;
    while i < entries.len()
        invariant
            i <= entries.len(),
            pair_texts(keys@) == entry_keys(entries@).take(i as int),
        decreases entries.len() - i,
    {
        let ghost was = keys@;
        let rank = if entries[i].1 {
            "0".to_owned()
        } else {
            "1".to_owned()
        };
        let name = lower(entries[i].0.as_str());
        let ghost key = (rank@, name@);
        keys.push((rank, name));
        assert(pair_texts(keys@) == pair_texts(was).push(key));
        assert(entry_keys(entries@).take(i + 1) == entry_keys(entries@).take(i as int).push(
            entry_keys(entries@)[i as int],
        ));
        i += 1;
    }
    assert(entry_keys(entries@).take(entries.len() as int) == entry_keys(entries@));
    let order = order_by(&keys);
    assert(keys@.len() == entries@.len()) by {
        assert(pair_texts(keys@).len() == keys@.len());
    }
    let mut out: Vec<Json> = Vec::new();
    let mut k: usize = 0;
    while k < order.len()
        invariant
            k <= order.len(),
            stable_order(entry_keys(entries@), order@, entries@.len() as int),
            trees(out@) == listing(entries@, order@).take(k as int),
        decreases order.len() - k,
    {
        let ghost was = out@;
        assert(order@[k as int] < entries.len());
        let e = &entries[order[k]];
        let mut m = object();
        put(&mut m, "is_dir", Json::Bool(e.1));
        put(&mut m, "name", text(e.0.as_str()));
        assert(members(m@) =~= entry_tree(*e)->Object_0);
        let j = Json::Object(m);
        out.push(j);
        assert(trees(out@) =~= trees(was).push(j@));
        assert(listing(entries@, order@).take(k + 1) == listing(entries@, order@).take(
            k as int,
        ).push(listing(entries@, order@)[k as int]));
        k += 1;
    }
    assert(listing(entries@, order@).take(order.len() as int) == listing(entries@, order@));
    Json::Array(out)
}

/// The systems that open files differently.
#[derive(Debug, PartialEq, Eq, Clone, Copy, Structural)]
pub enum Platform {
    MacOs,
    Windows,
    Other,
}

/// The extension of a path's last name: what follows its last dot, where the
/// name does not begin with that dot.
pub open spec fn extension_of(path: Seq<char>) -> Option<Seq<char>> {
    match file_name_of(path) {
        None => None,
        Some(name) => match last_index(name, '.') {
            Some(i) => if i > 0 {
                Some(name.skip(i + 1))
            } else {
                None
            },
            None => None,
        },
    }
}

/// The extension in lower case, or nothing. On Windows a backslash separates
/// names too.
pub open spec fn lower_extension(path: Seq<char>, platform: Platform) -> Seq<char> {
    let p = if platform == Platform::Windows {
        replaced(path, '\\', "/"@)
    } else {
        path
    };
    match extension_of(p) {
        Some(e) => e.map_values(|c: char| ascii_lower(c)),
        None => Seq::empty(),
    }
}

fn extension_lower(path: &str, platform: Platform) -> (r: String)
    ensures
        r@ == lower_extension(path@, platform),
{
    let p = if platform == Platform::Windows {
        replace(path, '\\', "/")
    } else {
        path.to_owned()
    };
    let mut out = String::new();
    if let Some(name) = file_name(p.as_str()) {
        let v = chars_of(name.as_str());
        if let Some(at) = find_last(&v, '.') {
            if at > 0 {
                let ghost ext = name@.skip(at + 1);
                let ghost want = ext.map_values(|c: char| ascii_lower(c));
                let mut i: usize = at + 1;
                while i < v.len()
                    invariant
                        at < i <= v.len(),
                        v@ == name@,
                        ext == name@.skip(at + 1),
                        want == ext.map_values(|c: char| ascii_lower(c)),
                        out@ == want.take(i - at - 1),
                    decreases v.len() - i,
                {
                    out.push(to_ascii_lower(v[i]));
                    assert(ext[i - at - 1] == v@[i as int]);
                    assert(want.take(i - at) == want.take(i - at - 1).push(want[i - at - 1]));
                    i += 1;
                }
                assert(want.take(v.len() - at - 1) == want);
            }
        }
    }
    out
}

/// Files of these extensions run when macOS opens them.
pub open spec fn runs_on_macos(ext: Seq<char>) -> bool {
    ||| ext == "pkg"@
    ||| ext == "mpkg"@
    ||| ext == "command"@
    ||| ext == "terminal"@
    ||| ext == "tool"@
}

/// Files of these extensions run when Windows opens them.
pub open spec fn runs_on_windows(ext: Seq<char>) -> bool {
    ||| ext == "exe"@
    ||| ext == "bat"@
    ||| ext == "cmd"@
    ||| ext == "com"@
    ||| ext == "scr"@
    ||| ext == "ps1"@
    ||| ext == "msi"@
    ||| ext == "vbs"@
    ||| ext == "vbe"@
    ||| ext == "js"@
    ||| ext == "jse"@
    ||| ext == "wsf"@
    ||| ext == "wsh"@
    ||| ext == "hta"@
    ||| ext == "lnk"@
    ||| ext == "reg"@
    ||| ext == "jar"@
    ||| ext == "pif"@
    ||| ext == "scf"@
    ||| ext == "cpl"@
    ||| ext == "msc"@
}

/// Opening the file would run it: an execute bit, except on Windows, or an
/// extension that the system runs.
pub open spec fn would_run(path: Seq<char>, execute_bit: bool, platform: Platform) -> bool {
    let ext = lower_extension(path, platform);
    match platform {
        Platform::MacOs => execute_bit || runs_on_macos(ext),
        Platform::Windows => runs_on_windows(ext),
        Platform::Other => execute_bit,
    }
}

/// What is said of a path that is not there.
pub open spec fn not_local(why: Seq<char>) -> Seq<char> {
    "not a local path: "@ + why
}

/// The program that opens things.
pub open spec fn opener_of(platform: Platform) -> Seq<char> {
    match platform {
        Platform::MacOs => "open"@,
        Platform::Windows => "explorer"@,
        Platform::Other => "xdg-open"@,
    }
}

fn opener(platform: Platform) -> (r: &'static str)
    ensures
        r@ == opener_of(platform),
{
    match platform {
        Platform::MacOs => "open",
        Platform::Windows => "explorer",
        Platform::Other => "xdg-open",
    }
}

fn missing_path(why: &str) -> (r: String)
    ensures
        r@ == not_local(why@),
{
    let mut e = "not a local path: ".to_owned();
    e.append(why);
    e
}

/// A path that is there is opened without asking.
pub open spec fn opens_at_once(
    path: Seq<char>,
    force: bool,
    is_file: bool,
    execute_bit: bool,
    platform: Platform,
) -> bool {
    force || !is_file || !would_run(path, execute_bit, platform)
}

/// The program that opens a path, or why it may not be opened. A file that would
/// run needs the user's word, which `force` gives. `found` says whether the path
/// is a file and has an execute bit, or why it was not found.
pub fn open_path(
    path: &str,
    force: Option<bool>,
    found: &Result<(bool, bool), String>,
    platform: Platform,
) -> (r: Result<&'static str, String>)
    ensures
        match *found {
            Err(why) => r matches Err(e) && e@ == not_local(why@),
            Ok((is_file, execute_bit)) => if force == Some(true) || !is_file || !would_run(
                path@,
                execute_bit,
                platform,
            ) {
                r matches Ok(p) && p@ == opener_of(platform)
            } else {
                r matches Err(e) && e@ == "executable_confirm"@
            },
        },
        r is Ok <==> (*found matches Ok((is_file, execute_bit)) && opens_at_once(path@, force == Some(true), is_file, execute_bit, platform)),
{
    let (is_file, execute_bit): (bool, bool) = match found {
        Ok(f) => *f,
        Err(why) => {
            return Err(missing_path(why.as_str()));
        },
    };
    let forced = match force {
        Some(b) => b,
        None => false,
    };
    if forced || !is_file {
        return Ok(opener(platform));
    }
    let ext_owned = extension_lower(path, platform);
    let ext = ext_owned.as_str();
    let runs = match platform {
        Platform::MacOs => execute_bit || same_text(ext, "pkg") || same_text(ext, "mpkg")
            || same_text(ext, "command") || same_text(ext, "terminal") || same_text(ext, "tool"),
        Platform::Windows => same_text(ext, "exe") || same_text(ext, "bat") || same_text(ext, "cmd")
            || same_text(ext, "com") || same_text(ext, "scr") || same_text(ext, "ps1")
            || same_text(ext, "msi") || same_text(ext, "vbs") || same_text(ext, "vbe")
            || same_text(ext, "js") || same_text(ext, "jse") || same_text(ext, "wsf")
            || same_text(ext, "wsh") || same_text(ext, "hta") || same_text(ext, "lnk")
            || same_text(ext, "reg") || same_text(ext, "jar") || same_text(ext, "pif")
            || same_text(ext, "scf") || same_text(ext, "cpl") || same_text(ext, "msc"),
        Platform::Other => execute_bit,
    };
    if runs {
        Err("executable_confirm".to_owned())
    } else {
        Ok(opener(platform))
    }
}

/// How many bytes of a file are read at most.
pub open spec fn head_cap(max_bytes: Option<u64>) -> int {
    let asked: int = match max_bytes {
        Some(n) => n as int,
        None => 65536,
    };
    if asked <= 1_048_576 {
        asked
    } else {
        1_048_576
    }
}

/// Whether the text of a path can be read: it is there, and it is a file.
pub fn text_file(found: &Result<bool, String>) -> (r: Result<(), String>)
    ensures
        match *found {
            Err(why) => r matches Err(e) && e@ == not_local(why@),
            Ok(false) => r matches Err(e) && e@ == "not a file"@,
            Ok(true) => r is Ok,
        },
{
    match found {
        Err(why) => Err(missing_path(why.as_str())),
        Ok(false) => Err("not a file".to_owned()),
        Ok(true) => Ok(()),
    }
}

/// The beginning of a file as text.
pub fn read_text_head(bytes: &Vec<u8>, max_bytes: Option<u64>) -> (r: String)
    ensures
        r@ == lossy_text(
            if bytes@.len() <= head_cap(max_bytes) {
                bytes@
            } else {
                bytes@.take(head_cap(max_bytes))
            },
        ),
{
    let asked: u64 = match max_bytes {
        Some(n) => n,
        None => 65536,
    };
    let cap: usize = if asked <= 1_048_576 {
        asked as usize
    } else {
        1_048_576
    };
    if bytes.len() <= cap {
        from_utf8_lossy(bytes.as_slice())
    } else {
        let mut head: Vec<u8> = Vec::new();
        let mut i: usize = 0;
        while i < cap
            invariant
                i <= cap < bytes.len(),
                head@ == bytes@.take(i as int),
            decreases cap - i,
        {
            head.push(bytes[i]);
            assert(bytes@.take(i + 1) == bytes@.take(i as int).push(bytes@[i as int]));
            i += 1;
        }
        from_utf8_lossy(head.as_slice())
    }
}

/// What follows the last `c` of `s`; the whole of `s` without one.
pub open spec fn after_last(s: Seq<char>, c: char) -> Seq<char> {
    match last_index(s, c) {
        Some(i) => s.skip(i + 1),
        None => s,
    }
}

/// The host of what follows the scheme of a URL: the authority ends at the path,
/// the query or the fragment, user information stands before an at sign, a port
/// behind a colon.
pub open spec fn host_of(rest: Seq<char>) -> Seq<char> {
    let authority = before_first(before_first(before_first(rest, '/'), '?'), '#');
    before_first(after_last(authority, '@'), ':')
}

/// `host` is `domain` or below it.
pub open spec fn under_domain(host: Seq<char>, domain: Seq<char>) -> bool {
    domain.len() > 0 && (host == domain || finishes_with(host, "."@ + domain))
}

/// The host is one of the built-in domains or of the user's own, or below one.
pub open spec fn host_allowed(host: Seq<char>, extras: Seq<Seq<char>>) -> bool {
    ||| under_domain(host, "notebooklm.google.com"@)
    ||| under_domain(host, "github.com"@)
    ||| under_domain(host, "cysinsight.com"@)
    ||| exists|i: int| 0 <= i < extras.len() && under_domain(host, #[trigger] extras[i])
}

fn in_domain(host: &str, domain: &str) -> (r: bool)
    ensures
        r == under_domain(host@, domain@),
{
    let mut dotted = ".".to_owned();
    dotted.append(domain);
    !domain.is_empty() && (same_text(host, domain) || ends_with(host, dotted.as_str()))
}

/// Whether a host may be opened.
pub fn host_in_allowlist(host: &str, extras: &[String]) -> (r: bool)
    ensures
        r == host_allowed(host@, texts(extras@)),
{
    if in_domain(host, "notebooklm.google.com") || in_domain(host, "github.com") || in_domain(
        host,
        "cysinsight.com",
    ) {
        return true;
    }
    let ghost all = texts(extras@);
    let mut i: usize = 0;
    while i < extras.len()
        invariant
            i <= extras@.len(),
            all == texts(extras@),
            forall|j: int| 0 <= j < i ==> !under_domain(host@, #[trigger] all[j]),
        decreases extras.len() - i,
    {
        assert(all[i as int] == extras@[i as int]@);
        if in_domain(host, extras[i].as_str()) {
            return true;
        }
        i += 1;
    }
    false
}

fn behind_last<'a>(s: &'a str, c: char) -> (r: &'a str)
    ensures
        r@ == after_last(s@, c),
{
    let v = chars_of(s);
    match find_last(&v, c) {
        Some(i) => {
            let r = s.substring_char(i + 1, v.len());
            assert(r@ == s@.skip(i + 1));
            r
        },
        None => s,
    }
}

/// Whether a URL may be opened: it is `https` and its host is allowed. `extras`
/// are the domains that the user allowed.
pub fn url_host_allowed(url: &str, extras: &[String]) -> (r: Result<(), String>)
    ensures
        match after_prefix(url@, "https://"@) {
            None => r matches Err(e) && e@ == "https only"@,
            Some(rest) => if host_allowed(host_of(rest), texts(extras@)) {
                r is Ok
            } else {
                r matches Err(e) && e@ == "domain not allowed: "@ + host_of(rest)
            },
        },
{
    match strip_prefix(url, "https://") {
        None => Err("https only".to_owned()),
        Some(rest) => {
            let authority = until(until(until(rest, '/'), '?'), '#');
            let host = until(behind_last(authority, '@'), ':');
            if host_in_allowlist(host, extras) {
                Ok(())
            } else {
                let mut m = "domain not allowed: ".to_owned();
                m.append(host);
                Err(m)
            }
        },
    }
}

/// The trimmed items that hold something; where `comments` is set, not those
/// that begin with a number sign.
pub open spec fn host_items(items: Seq<Seq<char>>, comments: bool) -> Seq<Seq<char>>
    decreases items.len(),
{
    if items.len() == 0 {
        Seq::empty()
    } else {
        let head = host_items(items.drop_last(), comments);
        let t = trimmed(items.last());
        if t.len() > 0 && !(comments && t[0] == '#') {
            head.push(t)
        } else {
            head
        }
    }
}

fn push_hosts(out: &mut Vec<String>, items: &Vec<&str>, comments: bool)
    ensures
        texts(final(out)@) == texts(old(out)@) + host_items(str_texts(items@), comments),
{
    let ghost all = str_texts(items@);
    let ghost start = texts(out@);
    let mut i: usize = 0;
    assert(start + host_items(all.take(0), comments) == start);
    while i < items.len()
        invariant
            i <= items.len(),
            all == str_texts(items@),
            texts(out@) == start + host_items(all.take(i as int), comments),
        decreases items.len() - i,
    {
        let ghost was = out@;
        assert(all.take(i + 1).drop_last() == all.take(i as int));
        assert(all[i as int] == items@[i as int]@);
        let t = trim(items[i]);
        let v = chars_of(t);
        if v.len() > 0 && !(comments && v[0] == '#') {
            out.push(t.to_owned());
            assert(texts(out@) == texts(was).push(t@));
        }
        i += 1;
        assert(texts(out@) == start + host_items(all.take(i as int), comments));
    }
    assert(all.take(items.len() as int) == all);
}

/// The domains that the user allowed: the lines of the file that are no
/// comments, then the comma-separated items of the environment.
pub fn user_allow_hosts(file: Option<&str>, env: Option<&str>) -> (r: Vec<String>)
    ensures
        texts(r@) == (match file {
            Some(f) => host_items(lines_of(f@), true),
            None => Seq::empty(),
        }) + (match env {
            Some(e) => host_items(split_on(e@, ','), false),
            None => Seq::empty(),
        }),
{
    let mut out: Vec<String> = Vec::new();
    assert(texts(out@) == Seq::<Seq<char>>::empty());
    if let Some(f) = file {
        push_hosts(&mut out, &lines(f), true);
    }
    assert(texts(out@) == (match file {
        Some(f) => host_items(lines_of(f@), true),
        None => Seq::empty(),
    }));
    if let Some(e) = env {
        push_hosts(&mut out, &split(e, ','), false);
    }
    assert(texts(out@) == (match file {
        Some(f) => host_items(lines_of(f@), true),
        None => Seq::empty(),
    }) + (match env {
        Some(e) => host_items(split_on(e@, ','), false),
        None => Seq::empty(),
    }));
    out
}

proof fn lemma_before_first(s: Seq<char>, c: char)
    ensures
        before_first(s, c).len() <= s.len(),
        forall|i: int|
            0 <= i < before_first(s, c).len() ==> (#[trigger] before_first(s, c)[i]) == s[i]
                && s[i] != c,
    decreases s.len(),
{
    if s.len() > 0 && s[0] != c {
        let t = s.skip(1);
        lemma_before_first(t, c);
        let w = before_first(s, c);
        assert forall|i: int| 0 <= i < w.len() implies (#[trigger] w[i]) == s[i] && s[i] != c by {
            if i > 0 {
                assert(w[i] == before_first(t, c)[i - 1]);
                assert(t[i - 1] == s[i]);
            }
        }
    }
}

proof fn lemma_last_index(s: Seq<char>, c: char)
    ensures
        match last_index(s, c) {
            Some(i) => 0 <= i < s.len() && forall|j: int| i < j < s.len() ==> s[j] != c,
            None => forall|j: int| 0 <= j < s.len() ==> s[j] != c,
        },
    decreases s.len(),
{
    if s.len() > 0 && s.last() != c {
        let u = s.drop_last();
        lemma_last_index(u, c);
        assert(forall|j: int| 0 <= j < u.len() ==> u[j] == s[j]);
    }
}

/// The host that is looked up among the allowed ones is a bare host: nothing of
/// a path, a query, a fragment, user information or a port is left in it.
pub proof fn law_host_is_bare(rest: Seq<char>)
    ensures
        forall|i: int|
            0 <= i < host_of(rest).len() ==> {
                let c = #[trigger] host_of(rest)[i];
                c != '/' && c != '?' && c != '#' && c != '@' && c != ':'
            },
{
    let a = before_first(rest, '/');
    let b = before_first(a, '?');
    let d = before_first(b, '#');
    lemma_before_first(rest, '/');
    lemma_before_first(a, '?');
    lemma_before_first(b, '#');
    let e = after_last(d, '@');
    lemma_last_index(d, '@');
    lemma_before_first(e, ':');
    let h = host_of(rest);
    assert forall|i: int| 0 <= i < h.len() implies ({
        let c = #[trigger] h[i];
        c != '/' && c != '?' && c != '#' && c != '@' && c != ':'
    }) by {
        assert(h[i] == e[i]);
        let k = match last_index(d, '@') {
            Some(n) => i + n + 1,
            None => i,
        };
        assert(e[i] == d[k]);
        assert(d[k] == b[k]);
        assert(b[k] == a[k]);
        assert(a[k] == rest[k]);
    }
}

/// The program and its arguments that show a path in the file manager; on other
/// systems the directory it stands in is opened. `missing` says why the path was
/// not found, where it was not.
pub fn reveal_path(path: &str, missing: &Option<String>, platform: Platform) -> (r: Result<
    (&'static str, Vec<String>),
    String,
>)
    ensures
        match *missing {
            Some(why) => r matches Err(e) && e@ == not_local(why@),
            None => r matches Ok(p) && p.0@ == opener_of(platform) && texts(p.1@) == (
            match platform {
                Platform::MacOs => seq!["-R"@, path@],
                Platform::Windows => seq!["/select,"@ + path@],
                Platform::Other => seq![
                    match parent_of(path@) {
                        Some(p) => p,
                        None => path@,
                    },
                ],
            }),
        },
{
    if let Some(why) = missing {
        return Err(missing_path(why.as_str()));
    }
    let mut args: Vec<String> = Vec::new();
    match platform {
        Platform::MacOs => {
            args.push("-R".to_owned());
            args.push(path.to_owned());
            assert(texts(args@) =~= seq!["-R"@, path@]);
        },
        Platform::Windows => {
            let mut select = "/select,".to_owned();
            select.append(path);
            let ghost st = select@;
            args.push(select);
            assert(texts(args@) =~= seq![st]);
        },
        Platform::Other => {
            let dir = match parent(path) {
                Some(p) => p,
                None => path.to_owned(),
            };
            let ghost dt = dir@;
            args.push(dir);
            assert(texts(args@) =~= seq![dt]);
        },
    }
    Ok((opener(platform), args))
}

/// The program that opens a URL, refused where the URL may not be opened.
pub fn open_url(url: &str, extras: &[String], platform: Platform) -> (r: Result<
    &'static str,
    String,
>)
    ensures
        match after_prefix(url@, "https://"@) {
            None => r matches Err(e) && e@ == "https only"@,
            Some(rest) => if host_allowed(host_of(rest), texts(extras@)) {
                r matches Ok(p) && p@ == opener_of(platform)
            } else {
                r matches Err(e) && e@ == "domain not allowed: "@ + host_of(rest)
            },
        },
{
    match url_host_allowed(url, extras) {
        Ok(()) => Ok(opener(platform)),
        Err(e) => Err(e),
    }
}

/// Whether a switch of the user's is on: the environment says so, or its file is
/// there.
pub fn switched_on(env: Option<&str>, file_exists: bool) -> (r: bool)
    ensures
        r == (file_exists || (env matches Some(v) && v@ == "1"@)),
{
    match env {
        Some(v) => file_exists || same_text(v, "1"),
        None => file_exists,
    }
}

/// An image is saved under an extension of letters and digits alone: the one
/// given where it is such, another one otherwise.
pub proof fn law_image_extension_is_plain(ext: Seq<char>)
    ensures
        ({
            let r = safe_extension(ext);
            &&& r.len() > 0
            &&& forall|i: int| 0 <= i < r.len() ==> is_ascii_alnum(#[trigger] r[i])
            &&& ext.len() > 0 && (forall|i: int|
                0 <= i < ext.len() ==> is_ascii_alnum(#[trigger] ext[i])) ==> r == ext
            &&& r == ext || r == "png"@
        }),
{
    reveal_strlit("png");
    assert("png"@.len() == 3);
    assert("png"@[0] == 'p' && "png"@[1] == 'n' && "png"@[2] == 'g');
}

/// A listing holds every entry once: directories before files, each kind by the
/// lower case of its names, and what is equal there as it was read. Each entry is
/// shown with its name and its kind.
pub proof fn law_listing_holds_every_entry(entries: Seq<(String, bool)>, order: Seq<usize>)
    requires
        stable_order(entry_keys(entries), order, entries.len() as int),
    ensures
        listing(entries, order).len() == entries.len(),
        forall|k: usize| k < entries.len() ==> #[trigger] order.contains(k),
        order.no_duplicates(),
        forall|i: int|
            0 <= i < order.len() ==> {
                let t = #[trigger] listing(entries, order)[i];
                &&& t.member("name"@) == Some(JsonTree::Text(entries[order[i] as int].0@))
                &&& t.member("is_dir"@) == Some(JsonTree::Bool(entries[order[i] as int].1))
            },
        forall|i: int, j: int|
            0 <= i < j < order.len() ==> {
                let (a, b) = (
                    entries[(#[trigger] order[i]) as int],
                    entries[(#[trigger] order[j]) as int],
                );
                &&& a.1 || !b.1
                &&& a.1 == b.1 ==> !crate::text::text_before(lowercase(b.0@), lowercase(a.0@))
                &&& a.1 == b.1 && lowercase(a.0@) == lowercase(b.0@) ==> order[i] < order[j]
            },
{
    reveal_strlit("is_dir");
    reveal_strlit("name");
    assert("is_dir"@[0] == 'i');
    assert("name"@[0] == 'n');
    reveal_with_fuel(crate::json::member_from, 3);
    reveal_strlit("0");
    reveal_strlit("1");
    assert("0"@[0] == '0' && "1"@[0] == '1');
    assert("0"@.len() == 1 && "1"@.len() == 1);
    assert(crate::text::text_before("0"@, "1"@));
    assert(!crate::text::text_before("1"@, "0"@));
    crate::order::lemma_text_before_irreflexive("0"@);
    crate::order::lemma_text_before_irreflexive("1"@);
    let keys = entry_keys(entries);
    crate::order::lemma_stable_order_is_complete(keys, order, entries.len() as int);
    assert forall|i: int, j: int| 0 <= i < j < order.len() implies {
        let (a, b) = (entries[(#[trigger] order[i]) as int], entries[(#[trigger] order[j]) as int]);
        &&& a.1 || !b.1
        &&& a.1 == b.1 ==> !crate::text::text_before(lowercase(b.0@), lowercase(a.0@))
        &&& a.1 == b.1 && lowercase(a.0@) == lowercase(b.0@) ==> order[i] < order[j]
    } by {
        let (p, q) = (order[i] as int, order[j] as int);
        assert(keys[p] == (if entries[p].1 { "0"@ } else { "1"@ }, lowercase(entries[p].0@)));
        assert(keys[q] == (if entries[q].1 { "0"@ } else { "1"@ }, lowercase(entries[q].0@)));
    }
}

proof fn lemma_behind_the_dot(name: Seq<char>, i: int)
    requires
        0 <= i < name.len(),
        name[i] == '.',
        forall|j: int| i < j < name.len() ==> #[trigger] name[j] != '.',
    ensures
        name == name.take(i).push('.') + name.skip(i + 1),
        !name.skip(i + 1).contains('.'),
{
    let e = name.skip(i + 1);
    assert(name =~= name.take(i).push('.') + e);
    if e.contains('.') {
        let k = choose|k: int| 0 <= k < e.len() && e[k] == '.';
        assert(name[i + 1 + k] == e[k]);
    }
}

/// The extension of a name is what follows its last dot: it holds no dot, and
/// something stands in front of that dot. A name without a dot, or with its only dot
/// in front, has none.
pub proof fn law_extension_follows_the_last_dot(path: Seq<char>, name: Seq<char>)
    requires
        file_name_of(path) == Some(name),
    ensures
        match extension_of(path) {
            Some(e) => {
                let n = name.len() - e.len() - 1;
                n > 0 && name == name.take(n).push('.') + e && !e.contains('.')
            },
            None => forall|i: int| 0 < i < name.len() ==> #[trigger] name[i] != '.',
        },
{
    crate::text::law_last_position(name, '.');
    match last_index(name, '.') {
        Some(i) => {
            lemma_behind_the_dot(name, i);
        },
        None => {
            assert forall|i: int| 0 < i < name.len() implies #[trigger] name[i] != '.' by {
                if name[i] == '.' {
                    assert(name.contains('.'));
                }
            }
        },
    }
}

/// The extensions that a system runs, all of them and no others.
pub proof fn law_extensions_that_run(ext: Seq<char>)
    ensures
        runs_on_macos(ext) <==> seq![
            "pkg"@,
            "mpkg"@,
            "command"@,
            "terminal"@,
            "tool"@,
        ].contains(ext),
        runs_on_windows(ext) <==> seq![
            "exe"@,
            "bat"@,
            "cmd"@,
            "com"@,
            "scr"@,
            "ps1"@,
            "msi"@,
            "vbs"@,
            "vbe"@,
            "js"@,
            "jse"@,
            "wsf"@,
            "wsh"@,
            "hta"@,
            "lnk"@,
            "reg"@,
            "jar"@,
            "pif"@,
            "scf"@,
            "cpl"@,
            "msc"@,
        ].contains(ext),
{
    let m = seq![
        "pkg"@,
        "mpkg"@,
        "command"@,
        "terminal"@,
        "tool"@,
    ];
    let w = seq![
        "exe"@,
        "bat"@,
        "cmd"@,
        "com"@,
        "scr"@,
        "ps1"@,
        "msi"@,
        "vbs"@,
        "vbe"@,
        "js"@,
        "jse"@,
        "wsf"@,
        "wsh"@,
        "hta"@,
        "lnk"@,
        "reg"@,
        "jar"@,
        "pif"@,
        "scf"@,
        "cpl"@,
        "msc"@,
    ];
    assert(m[0] == "pkg"@);
    assert(m[1] == "mpkg"@);
    assert(m[2] == "command"@);
    assert(m[3] == "terminal"@);
    assert(m[4] == "tool"@);
    assert(w[0] == "exe"@);
    assert(w[1] == "bat"@);
    assert(w[2] == "cmd"@);
    assert(w[3] == "com"@);
    assert(w[4] == "scr"@);
    assert(w[5] == "ps1"@);
    assert(w[6] == "msi"@);
    assert(w[7] == "vbs"@);
    assert(w[8] == "vbe"@);
    assert(w[9] == "js"@);
    assert(w[10] == "jse"@);
    assert(w[11] == "wsf"@);
    assert(w[12] == "wsh"@);
    assert(w[13] == "hta"@);
    assert(w[14] == "lnk"@);
    assert(w[15] == "reg"@);
    assert(w[16] == "jar"@);
    assert(w[17] == "pif"@);
    assert(w[18] == "scf"@);
    assert(w[19] == "cpl"@);
    assert(w[20] == "msc"@);
}

/// Whether opening a file runs it depends on its extension, in whatever case it
/// is written, and on its execute bit: on macOS on both, on Windows on the extension
/// alone, elsewhere on the bit alone.
pub proof fn law_what_runs_when_opened(path: Seq<char>, ext: Seq<char>, execute_bit: bool)
    ensures
        would_run(path, true, Platform::MacOs),
        would_run(path, execute_bit, Platform::Other) <==> execute_bit,
        would_run(path, true, Platform::Windows) <==> would_run(path, false, Platform::Windows),
        extension_of(path) == Some(ext) ==> (would_run(path, false, Platform::MacOs)
            <==> runs_on_macos(ext.map_values(|c: char| ascii_lower(c)))),
        extension_of(replaced(path, '\\', "/"@)) == Some(ext) ==> (would_run(
            path,
            execute_bit,
            Platform::Windows,
        ) <==> runs_on_windows(ext.map_values(|c: char| ascii_lower(c)))),
        extension_of(path) is None ==> !would_run(path, false, Platform::MacOs),
        extension_of(replaced(path, '\\', "/"@)) is None ==> !would_run(
            path,
            execute_bit,
            Platform::Windows,
        ),
{
    let none = Seq::<char>::empty();
    reveal_strlit("pkg");
    reveal_strlit("mpkg");
    reveal_strlit("command");
    reveal_strlit("terminal");
    reveal_strlit("tool");
    reveal_strlit("exe");
    reveal_strlit("bat");
    reveal_strlit("cmd");
    reveal_strlit("com");
    reveal_strlit("scr");
    reveal_strlit("ps1");
    reveal_strlit("msi");
    reveal_strlit("vbs");
    reveal_strlit("vbe");
    reveal_strlit("js");
    reveal_strlit("jse");
    reveal_strlit("wsf");
    reveal_strlit("wsh");
    reveal_strlit("hta");
    reveal_strlit("lnk");
    reveal_strlit("reg");
    reveal_strlit("jar");
    reveal_strlit("pif");
    reveal_strlit("scf");
    reveal_strlit("cpl");
    reveal_strlit("msc");
    assert("pkg"@.len() == 3);
    assert("mpkg"@.len() == 4);
    assert("command"@.len() == 7);
    assert("terminal"@.len() == 8);
    assert("tool"@.len() == 4);
    assert("exe"@.len() == 3);
    assert("bat"@.len() == 3);
    assert("cmd"@.len() == 3);
    assert("com"@.len() == 3);
    assert("scr"@.len() == 3);
    assert("ps1"@.len() == 3);
    assert("msi"@.len() == 3);
    assert("vbs"@.len() == 3);
    assert("vbe"@.len() == 3);
    assert("js"@.len() == 2);
    assert("jse"@.len() == 3);
    assert("wsf"@.len() == 3);
    assert("wsh"@.len() == 3);
    assert("hta"@.len() == 3);
    assert("lnk"@.len() == 3);
    assert("reg"@.len() == 3);
    assert("jar"@.len() == 3);
    assert("pif"@.len() == 3);
    assert("scf"@.len() == 3);
    assert("cpl"@.len() == 3);
    assert("msc"@.len() == 3);
    assert(!runs_on_macos(none));
    assert(!runs_on_windows(none));
}

/// Each system opens things with a program of its own.
pub proof fn law_openers(platform: Platform)
    ensures
        opener_of(platform) == "open"@ <==> platform == Platform::MacOs,
        opener_of(platform) == "explorer"@ <==> platform == Platform::Windows,
        opener_of(platform) == "xdg-open"@ <==> platform == Platform::Other,
{
    reveal_strlit("open");
    reveal_strlit("explorer");
    reveal_strlit("xdg-open");
    assert("open"@[0] == 'o' && "explorer"@[0] == 'e' && "xdg-open"@[0] == 'x');
}

/// Of a file never more is read than was asked for, and never more than a
/// mebibyte; without a wish sixty-four kibibytes. A wish up to the limit is kept.
pub proof fn law_head_is_bounded(max_bytes: Option<u64>)
    ensures
        head_cap(max_bytes) <= 1_048_576,
        max_bytes matches Some(n) ==> head_cap(max_bytes) <= n && (n <= 1_048_576 ==> head_cap(
            max_bytes,
        ) == n) && (n > 1_048_576 ==> head_cap(max_bytes) == 1_048_576),
        max_bytes is None ==> head_cap(max_bytes) == 64 * 1024,
{
}

/// A host is below a domain exactly where it is the domain or ends in a dot and
/// the domain; nothing is below an empty domain. A host is allowed exactly where it
/// is below one of the three built-in domains or one of the user's.
pub proof fn law_allowed_hosts(host: Seq<char>, domain: Seq<char>, extras: Seq<Seq<char>>)
    ensures
        under_domain(host, domain) <==> domain.len() > 0 && (host == domain || exists|
            front: Seq<char>,
        |
            host == #[trigger] (front + ("."@ + domain))),
        host_allowed(host, extras) <==> exists|d: Seq<char>| #[trigger]
            under_domain(host, d) && (d == "notebooklm.google.com"@ || d == "github.com"@ || d
                == "cysinsight.com"@ || extras.contains(d)),
        forall|more: Seq<Seq<char>>|
            host_allowed(host, extras) ==> host_allowed(host, #[trigger] (extras + more)),
{
    crate::text::law_where_patterns_stand(host, "."@ + domain);
    if exists|i: int| 0 <= i < extras.len() && under_domain(host, #[trigger] extras[i]) {
        let i = choose|i: int| 0 <= i < extras.len() && under_domain(host, #[trigger] extras[i]);
        assert(extras.contains(extras[i]));
    }
    assert forall|d: Seq<char>| #[trigger] under_domain(host, d) && extras.contains(d) implies
        host_allowed(host, extras) by {
        let i = choose|i: int| 0 <= i < extras.len() && extras[i] == d;
        assert(under_domain(host, extras[i]));
    }
    assert forall|more: Seq<Seq<char>>| host_allowed(host, extras) implies host_allowed(
        host,
        #[trigger] (extras + more),
    ) by {
        if exists|i: int| 0 <= i < extras.len() && under_domain(host, #[trigger] extras[i]) {
            let i = choose|i: int|
                0 <= i < extras.len() && under_domain(host, #[trigger] extras[i]);
            assert((extras + more)[i] == extras[i]);
        }
    }
}

/// A character that stands in no bare host.
pub open spec fn parts_a_url(c: char) -> bool {
    c == '/' || c == '?' || c == '#' || c == '@' || c == ':'
}

proof fn lemma_before_first_of_joined(a: Seq<char>, b: Seq<char>, c: char)
    requires
        forall|i: int| 0 <= i < a.len() ==> a[i] != c,
        b.len() == 0 || b[0] == c,
    ensures
        before_first(a + b, c) == a,
{
    let f = before_first(a + b, c);
    let s = a + b;
    crate::text::law_front_of_the_first(s, c);
    if f.len() < a.len() {
        assert(s[f.len() as int] == a[f.len() as int]);
    } else if f.len() > a.len() {
        assert(f[a.len() as int] == s.take(f.len() as int)[a.len() as int]);
        assert(f.contains(f[a.len() as int]));
        assert(s[a.len() as int] == b[0]);
    }
    assert(f.len() == a.len());
    assert(s.take(a.len() as int) =~= a);
}

proof fn lemma_before_first_without(s: Seq<char>, c: char)
    requires
        forall|i: int| 0 <= i < s.len() ==> s[i] != c,
    ensures
        before_first(s, c) == s,
{
    lemma_before_first_of_joined(s, Seq::empty(), c);
    assert(s + Seq::<char>::empty() =~= s);
}

/// The host of a URL is found between what may stand around it: user information
/// in front of an at sign, a port behind a colon, and then a path, a query or a
/// fragment.
pub proof fn law_host_is_found(
    user: Option<Seq<char>>,
    host: Seq<char>,
    port: Option<Seq<char>>,
    tail: Seq<char>,
)
    requires
        forall|i: int| 0 <= i < host.len() ==> !parts_a_url(#[trigger] host[i]),
        user matches Some(u) ==> forall|i: int|
            0 <= i < u.len() ==> u[i] != '/' && u[i] != '?' && u[i] != '#',
        port matches Some(p) ==> forall|i: int| 0 <= i < p.len() ==> !parts_a_url(#[trigger] p[i]),
        tail.len() == 0 || tail[0] == '/' || tail[0] == '?' || tail[0] == '#',
    ensures
        host_of(
            (match user {
                Some(u) => u.push('@'),
                None => Seq::empty(),
            }) + host + (match port {
                Some(p) => seq![':'] + p,
                None => Seq::empty(),
            }) + tail,
        ) == host,
{
    let front = match user {
        Some(u) => u.push('@'),
        None => Seq::empty(),
    };
    let back = match port {
        Some(p) => seq![':'] + p,
        None => Seq::empty(),
    };
    let auth = front + host + back;
    assert forall|i: int| 0 <= i < auth.len() implies auth[i] != '/' && auth[i] != '?' && auth[i]
        != '#' by {
        if i < front.len() {
            assert(auth[i] == front[i]);
        } else if i < front.len() + host.len() {
            assert(auth[i] == host[i - front.len()]);
        } else {
            assert(auth[i] == back[i - front.len() - host.len()]);
            if i > front.len() + host.len() {
                assert(auth[i] == port->Some_0[i - front.len() - host.len() - 1]);
            }
        }
    }
    let rest = auth + tail;
    let cut = before_first(before_first(before_first(rest, '/'), '?'), '#');
    assert(cut == auth) by {
        lemma_authority_ends(auth, tail);
    }
    crate::text::law_last_position(auth, '@');
    let tail_host = host + back;
    assert forall|i: int| 0 <= i < tail_host.len() implies tail_host[i] != '@' by {
        if i < host.len() {
            assert(tail_host[i] == host[i]);
        } else if i > host.len() {
            assert(tail_host[i] == port->Some_0[i - host.len() - 1]);
        }
    }
    assert(auth =~= front + tail_host);
    assert(after_last(auth, '@') =~= tail_host) by {
        match last_index(auth, '@') {
            Some(i) => {
                if i >= front.len() {
                    assert(auth[i] == tail_host[i - front.len()]);
                }
                assert(front.len() > 0);
                assert(auth[front.len() - 1] == '@');
                assert(i == front.len() - 1);
            },
            None => {
                if front.len() > 0 {
                    assert(auth[front.len() - 1] == '@');
                    assert(auth.contains('@'));
                }
            },
        }
    }
    lemma_before_first_of_joined(host, back, ':');
}

proof fn lemma_authority_ends(auth: Seq<char>, tail: Seq<char>)
    requires
        forall|i: int|
            0 <= i < auth.len() ==> auth[i] != '/' && auth[i] != '?' && auth[i] != '#',
        tail.len() == 0 || tail[0] == '/' || tail[0] == '?' || tail[0] == '#',
    ensures
        before_first(before_first(before_first(auth + tail, '/'), '?'), '#') == auth,
{
    let rest = auth + tail;
    if tail.len() == 0 {
        assert(rest =~= auth);
        lemma_before_first_without(auth, '/');
        lemma_before_first_without(auth, '?');
        lemma_before_first_without(auth, '#');
    } else if tail[0] == '/' {
        lemma_before_first_of_joined(auth, tail, '/');
        lemma_before_first_without(auth, '?');
        lemma_before_first_without(auth, '#');
    } else {
        let a = before_first(rest, '/');
        lemma_front_keeps(auth, tail, '/');
        let ta = a.skip(auth.len() as int);
        assert(a =~= auth + ta);
        if tail[0] == '?' {
            lemma_before_first_of_joined(auth, ta, '?');
            lemma_before_first_without(auth, '#');
        } else {
            let b = before_first(a, '?');
            lemma_front_keeps(auth, ta, '?');
            let tb = b.skip(auth.len() as int);
            assert(b =~= auth + tb);
            lemma_before_first_of_joined(auth, tb, '#');
        }
    }
}

/// What stands in front of the first `c` keeps a front without it, and the
/// character behind that front where it is another one.
proof fn lemma_front_keeps(a: Seq<char>, b: Seq<char>, c: char)
    requires
        forall|i: int| 0 <= i < a.len() ==> a[i] != c,
        b.len() > 0,
        b[0] != c,
    ensures
        before_first(a + b, c).len() > a.len(),
        before_first(a + b, c).take(a.len() as int) == a,
        before_first(a + b, c)[a.len() as int] == b[0],
{
    let s = a + b;
    let f = before_first(s, c);
    crate::text::law_front_of_the_first(s, c);
    if f.len() <= a.len() {
        assert(s[f.len() as int] == c);
        if f.len() < a.len() {
            assert(s[f.len() as int] == a[f.len() as int]);
        } else {
            assert(s[f.len() as int] == b[0]);
        }
    }
    assert(s.take(f.len() as int) == f);
    assert(f.take(a.len() as int) =~= a);
    assert(f[a.len() as int] == s[a.len() as int]);
}

/// The domains of a list are its items, trimmed and in order, without the empty
/// ones and, where comments are known, without those that begin with a number sign.
pub proof fn law_domains_of_a_list(items: Seq<Seq<char>>, comments: bool)
    ensures
        host_items(items, comments) == items.filter(
            |t: Seq<char>| trimmed(t).len() > 0 && (comments ==> trimmed(t)[0] != '#'),
        ).map_values(|t: Seq<char>| trimmed(t)),
    decreases items.len(),
{
    reveal(Seq::filter);
    if items.len() > 0 {
        law_domains_of_a_list(items.drop_last(), comments);
    }
    assert(host_items(items, comments) =~= items.filter(
        |t: Seq<char>| trimmed(t).len() > 0 && (comments ==> trimmed(t)[0] != '#'),
    ).map_values(|t: Seq<char>| trimmed(t)));
}

/// A path that is not there is told with the reason, and as it was given.
pub proof fn law_missing_path_is_told(why: Seq<char>)
    ensures
        not_local(why) == "not a local path: "@ + why,
{
}

/// Only a file that would run waits for the user's word, and never once that was
/// given; a directory is always opened.
pub proof fn law_only_running_files_wait(
    path: Seq<char>,
    force: bool,
    is_file: bool,
    execute_bit: bool,
    platform: Platform,
)
    ensures
        opens_at_once(path, true, is_file, execute_bit, platform),
        opens_at_once(path, force, false, execute_bit, platform),
        opens_at_once(path, false, true, execute_bit, platform) <==> !would_run(
            path,
            execute_bit,
            platform,
        ),
        platform != Platform::Windows ==> !opens_at_once(path, false, true, true, platform),
{
}

} // verus!
