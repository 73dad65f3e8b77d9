//! What the windows of the shell may show, and what happens when one is closed.
use crate::text::{
    contains, has_infix, has_prefix, needles_stand_between, prefixes_are_put_before, same_text,
    starts_with,
};
use vstd::prelude::*;

verus! {

/// The hosts that take part in signing in.
pub open spec fn auth_domains() -> Seq<Seq<char>> {
    seq![
        "chat.qwen.ai"@,
        "accounts.qwen.ai"@,
        "account.qwen.ai"@,
        "login.qwen.ai"@,
        "auth.qwen.ai"@,
        "oauth.qwen.ai"@,
        "passport.alibaba.com"@,
        "login.alibaba.com"@,
        "signin.alibaba.com"@,
        "accounts.alibaba.com"@,
        "account.alibaba.com"@,
        "login.aliyun.com"@,
        "account.aliyun.com"@,
        "signin.aliyun.com"@,
    ]
}

/// The parts of a path by which a step of signing in is recognised.
pub open spec fn auth_paths() -> Seq<Seq<char>> {
    seq!["/login"@, "/auth"@, "/oauth"@, "/callback"@, "/signin"@, "/signup"@]
}

/// One of the marks stands somewhere in the URL.
pub open spec fn mentions_any(url: Seq<char>, marks: Seq<Seq<char>>) -> bool {
    exists|i: int| 0 <= i < marks.len() && has_infix(url, #[trigger] marks[i])
}

/// The URL belongs to signing in, or leads back to the chat.
pub open spec fn is_auth_url(url: Seq<char>) -> bool {
    mentions_any(url, auth_domains()) || mentions_any(url, auth_paths()) || has_prefix(
        url,
        "https://chat.qwen.ai"@,
    )
}

/// The main window may navigate to the URL: it belongs to signing in, or it is a
/// web page.
pub open spec fn may_navigate(url: Seq<char>) -> bool {
    is_auth_url(url) || has_prefix(url, "https://"@) || has_prefix(url, "http://"@)
}

/// The hosts that take part in signing in.
fn auth_domain_list() -> (r: Vec<&'static str>)
    ensures
        r.deep_view() == auth_domains(),
{
    let r = vec![
        "chat.qwen.ai",
        "accounts.qwen.ai",
        "account.qwen.ai",
        "login.qwen.ai",
        "auth.qwen.ai",
        "oauth.qwen.ai",
        "passport.alibaba.com",
        "login.alibaba.com",
        "signin.alibaba.com",
        "accounts.alibaba.com",
        "account.alibaba.com",
        "login.aliyun.com",
        "account.aliyun.com",
        "signin.aliyun.com",
    ];
    assert(r.deep_view() =~= auth_domains());
    r
}

/// The parts of a path by which a step of signing in is recognised.
fn auth_path_list() -> (r: Vec<&'static str>)
    ensures
        r.deep_view() == auth_paths(),
{
    let r = vec!["/login", "/auth", "/oauth", "/callback", "/signin", "/signup"];
    assert(r.deep_view() =~= auth_paths());
    r
}

/// Whether one of the marks stands somewhere in the URL.
fn mentions(url: &str, marks: &Vec<&'static str>) -> (r: bool)
    ensures
        r == mentions_any(url@, marks.deep_view()),
{
    let mut i: usize = 0;
    while i < marks.len()
        invariant
            i <= marks@.len(),
            forall|k: int| 0 <= k < i ==> !has_infix(url@, #[trigger] marks.deep_view()[k]),
        decreases marks@.len() - i,
    {
        assert(marks.deep_view()[i as int] == marks@[i as int]@);
        if contains(url, marks[i]) {
            return true;
        }
        i = i + 1;
    }
    false
}

/// Whether the main window may navigate to the URL. What signing in needs is
/// always allowed; of the rest, web pages are.
pub fn allow_navigation(url: &str) -> (r: bool)
    ensures
        r == may_navigate(url@),
{
    let domains = auth_domain_list();
    let paths = auth_path_list();
    if mentions(url, &domains) || mentions(url, &paths) || starts_with(url, "https://chat.qwen.ai") {
        true
    } else {
        starts_with(url, "https://") || starts_with(url, "http://")
    }
}

/// Whether closing the window of that label only hides it: the main window stays
/// in the tray, any other closes.
pub fn hides_on_close(label: &str) -> (r: bool)
    ensures
        r == (label@ == "main"@),
{
    same_text(label, "main")
}

/// The script by which the page shows the version of the shell.
pub fn about_script(version: &str) -> (r: String)
    ensures
        r@ == "alert(\"Qwen Studio v"@ + version@ + "\");"@,
{
    "alert(\"Qwen Studio v".to_owned().concat(version).concat("\");")
}

/// Every web page may be navigated to, and of what is none only a URL that
/// mentions a step of signing in.
pub proof fn other_schemes_need_a_sign_in_mark(url: Seq<char>)
    ensures
        has_prefix(url, "https://"@) || has_prefix(url, "http://"@) ==> may_navigate(url),
        may_navigate(url) && !has_prefix(url, "https://"@) && !has_prefix(url, "http://"@)
            ==> mentions_any(url, auth_domains()) || mentions_any(url, auth_paths()),
{
    reveal_strlit("https://chat.qwen.ai");
    reveal_strlit("https://");
    if has_prefix(url, "https://chat.qwen.ai"@) {
        let chat = "https://chat.qwen.ai"@;
        assert(url.take(8) =~= chat.take(8)) by {
            assert forall|i: int| 0 <= i < 8 implies url[i] == chat[i] by {
                assert(url.take(chat.len() as int)[i] == url[i]);
            }
        }
        assert(chat.take(8) =~= "https://"@);
    }
}

/// A URL may be navigated to as soon as one of the hosts or paths of signing in stands
/// anywhere in it, or it begins like a web page.
pub proof fn a_mark_allows_navigation(before: Seq<char>, mark: Seq<char>, after: Seq<char>)
    requires
        seq![
            "chat.qwen.ai"@,
            "accounts.qwen.ai"@,
            "account.qwen.ai"@,
            "login.qwen.ai"@,
            "auth.qwen.ai"@,
            "oauth.qwen.ai"@,
            "passport.alibaba.com"@,
            "login.alibaba.com"@,
            "signin.alibaba.com"@,
            "accounts.alibaba.com"@,
            "account.alibaba.com"@,
            "login.aliyun.com"@,
            "account.aliyun.com"@,
            "signin.aliyun.com"@,
            "/login"@,
            "/auth"@,
            "/oauth"@,
            "/callback"@,
            "/signin"@,
            "/signup"@,
        ].contains(mark),
    ensures
        may_navigate(before + mark + after),
        may_navigate("https://"@ + after),
        may_navigate("http://"@ + after),
{
    let marks = seq![
        "chat.qwen.ai"@,
        "accounts.qwen.ai"@,
        "account.qwen.ai"@,
        "login.qwen.ai"@,
        "auth.qwen.ai"@,
        "oauth.qwen.ai"@,
        "passport.alibaba.com"@,
        "login.alibaba.com"@,
        "signin.alibaba.com"@,
        "accounts.alibaba.com"@,
        "account.alibaba.com"@,
        "login.aliyun.com"@,
        "account.aliyun.com"@,
        "signin.aliyun.com"@,
        "/login"@,
        "/auth"@,
        "/oauth"@,
        "/callback"@,
        "/signin"@,
        "/signup"@,
    ];
    assert(marks =~= auth_domains() + auth_paths());
    let i = choose|i: int| 0 <= i < marks.len() && marks[i] == mark;
    let url = before + mark + after;
    needles_stand_between(url, before, mark, after);
    if i < auth_domains().len() {
        assert(auth_domains()[i] == mark);
        assert(mentions_any(url, auth_domains()));
    } else {
        assert(auth_paths()[i - auth_domains().len()] == mark);
        assert(mentions_any(url, auth_paths()));
    }
    prefixes_are_put_before(after, "https://"@);
    prefixes_are_put_before(after, "http://"@);
}

/// No other URL may be navigated to: one that may begins like a web page, or holds one of
/// the hosts or paths of signing in.
pub proof fn navigation_needs_a_mark(url: Seq<char>)
    requires
        may_navigate(url),
        !"https://"@.is_prefix_of(url),
        !"http://"@.is_prefix_of(url),
    ensures
        exists|mark: Seq<char>| #[trigger]
            has_infix(url, mark) && seq![
                "chat.qwen.ai"@,
                "accounts.qwen.ai"@,
                "account.qwen.ai"@,
                "login.qwen.ai"@,
                "auth.qwen.ai"@,
                "oauth.qwen.ai"@,
                "passport.alibaba.com"@,
                "login.alibaba.com"@,
                "signin.alibaba.com"@,
                "accounts.alibaba.com"@,
                "account.alibaba.com"@,
                "login.aliyun.com"@,
                "account.aliyun.com"@,
                "signin.aliyun.com"@,
                "/login"@,
                "/auth"@,
                "/oauth"@,
                "/callback"@,
                "/signin"@,
                "/signup"@,
            ].contains(mark),
{
    let marks = seq![
        "chat.qwen.ai"@,
        "accounts.qwen.ai"@,
        "account.qwen.ai"@,
        "login.qwen.ai"@,
        "auth.qwen.ai"@,
        "oauth.qwen.ai"@,
        "passport.alibaba.com"@,
        "login.alibaba.com"@,
        "signin.alibaba.com"@,
        "accounts.alibaba.com"@,
        "account.alibaba.com"@,
        "login.aliyun.com"@,
        "account.aliyun.com"@,
        "signin.aliyun.com"@,
        "/login"@,
        "/auth"@,
        "/oauth"@,
        "/callback"@,
        "/signin"@,
        "/signup"@,
    ];
    assert(marks =~= auth_domains() + auth_paths());
    prefixes_are_put_before(url, "https://"@);
    prefixes_are_put_before(url, "http://"@);
    other_schemes_need_a_sign_in_mark(url);
    if mentions_any(url, auth_domains()) {
        let i = choose|i: int|
            0 <= i < auth_domains().len() && has_infix(url, #[trigger] auth_domains()[i]);
        assert(has_infix(url, marks[i]) && marks.contains(marks[i]));
    } else {
        let i = choose|i: int|
            0 <= i < auth_paths().len() && has_infix(url, #[trigger] auth_paths()[i]);
        let k = i + auth_domains().len();
        assert(has_infix(url, marks[k]) && marks.contains(marks[k]));
    }
}

} // verus!
