//! What the focus collector reads about the foreground window, and how it is
//! identified between two observations.

use vstd::prelude::*;
use vstd::string::*;
use crate::text::{
    chars_of, string_from, concat, i64_text, u64_text, signed_decimal_text, decimal_text,
    to_ascii_lowercase, seq_equal, lower_seq, is_digit, lemma_decimal_text_parses, eq_ignore_case_spec,
};

verus! {

/// The foreground window at one observation.
#[derive(Clone, Debug)]
pub struct ForegroundWindowSnapshot {
    pub hwnd: isize,
    pub process_id: u32,
    pub session_id: u32,
    pub process_name: String,
    pub exe_path: String,
    pub window_title: Option<String>,
    pub is_browser: bool,
}

/// A title as the fingerprint writes it: empty when it was not read.
pub open spec fn title_text(title: Option<Seq<char>>) -> Seq<char> {
    match title {
        Some(t) => t,
        None => Seq::<char>::empty(),
    }
}

/// `hwnd:process_id:title`, the title empty when it was not read.
pub open spec fn fingerprint_spec(hwnd: int, process_id: int, title: Option<Seq<char>>) -> Seq<char> {
    signed_decimal_text(hwnd) + seq![':'] + decimal_text(process_id as nat) + seq![':'] + title_text(title)
}

/// No colon occurs in a text.
pub open spec fn colon_free(s: Seq<char>) -> bool {
    forall|i: int| 0 <= i < s.len() ==> #[trigger] s[i] != ':'
}

proof fn lemma_signed_text_shape(n: int)
    ensures
        colon_free(signed_decimal_text(n)),
        signed_decimal_text(n).len() > 0,
        n < 0 <==> signed_decimal_text(n)[0] == '-',
{
    if n < 0 {
        let m = (-n) as nat;
        lemma_decimal_text_parses(m);
        let d = decimal_text(m);
        let t = signed_decimal_text(n);
        assert forall|i: int| 0 <= i < t.len() implies #[trigger] t[i] != ':' by {
            if i > 0 {
                assert(t[i] == d[i - 1]);
                assert(is_digit(d[i - 1]));
            }
        }
    } else {
        lemma_decimal_text_parses(n as nat);
        let d = decimal_text(n as nat);
        assert(is_digit(d[0]));
        assert forall|i: int| 0 <= i < d.len() implies #[trigger] d[i] != ':' by {
            assert(is_digit(d[i]));
        }
    }
}

proof fn lemma_signed_text_injective(x: int, y: int)
    requires
        signed_decimal_text(x) == signed_decimal_text(y),
    ensures
        x == y,
{
    lemma_signed_text_shape(x);
    lemma_signed_text_shape(y);
    if x < 0 {
        let tx = signed_decimal_text(x);
        assert(tx.subrange(1, tx.len() as int) =~= decimal_text((-x) as nat));
        assert(tx.subrange(1, tx.len() as int) =~= decimal_text((-y) as nat));
        lemma_decimal_text_parses((-x) as nat);
        lemma_decimal_text_parses((-y) as nat);
    } else {
        lemma_decimal_text_parses(x as nat);
        lemma_decimal_text_parses(y as nat);
    }
}

/// Reading `a:b:c` back where `a` and `b` hold no colon.
proof fn lemma_colon_fields(a: Seq<char>, b: Seq<char>, c: Seq<char>, a2: Seq<char>, b2: Seq<char>, c2: Seq<char>)
    requires
        colon_free(a),
        colon_free(b),
        colon_free(a2),
        colon_free(b2),
        a + seq![':'] + b + seq![':'] + c == a2 + seq![':'] + b2 + seq![':'] + c2,
    ensures
        a == a2,
        b == b2,
        c == c2,
{
    let f = a + seq![':'] + b + seq![':'] + c;
    let f2 = a2 + seq![':'] + b2 + seq![':'] + c2;
    if a.len() < a2.len() {
        assert(f[a.len() as int] == ':');
        assert(f2[a.len() as int] == a2[a.len() as int]);
    }
    if a2.len() < a.len() {
        assert(f2[a2.len() as int] == ':');
        assert(f[a2.len() as int] == a[a2.len() as int]);
    }
    assert(a.len() == a2.len());
    assert(a =~= f.subrange(0, a.len() as int));
    assert(a2 =~= f2.subrange(0, a.len() as int));
    let o: int = a.len() as int + 1;
    if b.len() < b2.len() {
        assert(f[o + b.len()] == ':');
        assert(f2[o + b.len()] == b2[b.len() as int]);
    }
    if b2.len() < b.len() {
        assert(f2[o + b2.len()] == ':');
        assert(f[o + b2.len()] == b[b2.len() as int]);
    }
    assert(b.len() == b2.len());
    assert(b =~= f.subrange(o, o + b.len()));
    assert(b2 =~= f2.subrange(o, o + b.len()));
    let o2: int = o + b.len() + 1;
    assert(c =~= f.subrange(o2, f.len() as int));
    assert(c2 =~= f2.subrange(o2, f2.len() as int));
}

impl ForegroundWindowSnapshot {
    pub open spec fn title_view(self) -> Option<Seq<char>> {
        match self.window_title {
            Some(t) => Some(t@),
            None => None,
        }
    }

    pub open spec fn fingerprint_view(self) -> Seq<char> {
        fingerprint_spec(self.hwnd as int, self.process_id as int, self.title_view())
    }

    /// Identifies the window between observations: the same window, process and
    /// title give the same fingerprint.
    pub fn fingerprint(&self) -> (r: String)
        ensures
            r@ == self.fingerprint_view(),
    {
        let mut colon: Vec<char> = Vec::new();
        colon.push(':');
        assert(colon@ =~= seq![':']);
        let hwnd = i64_text(self.hwnd as i64);
        let pid = u64_text(self.process_id as u64);
        let title = match &self.window_title {
            Some(t) => chars_of(t.as_str()),
            None => Vec::new(),
        };
        let v = concat(&concat(&concat(&concat(&hwnd, &colon), &pid), &colon), &title);
        proof {
            assert(title@ == title_text(self.title_view()));
        }
        string_from(&v)
    }
}

/// Law: two snapshots have the same fingerprint exactly when they have the same
/// window handle, the same process id and the same title (a title that was not
/// read counts as empty); the session, process name, path and browser flag never
/// change it.
pub proof fn law_fingerprint_identifies_window(a: ForegroundWindowSnapshot, b: ForegroundWindowSnapshot)
    ensures
        a.fingerprint_view() == b.fingerprint_view() <==> (a.hwnd == b.hwnd && a.process_id == b.process_id
            && title_text(a.title_view()) == title_text(b.title_view())),
{
    if a.fingerprint_view() == b.fingerprint_view() {
        lemma_signed_text_shape(a.hwnd as int);
        lemma_signed_text_shape(b.hwnd as int);
        lemma_decimal_text_parses(a.process_id as nat);
        lemma_decimal_text_parses(b.process_id as nat);
        let pa = decimal_text(a.process_id as nat);
        let pb = decimal_text(b.process_id as nat);
        assert forall|i: int| 0 <= i < pa.len() implies #[trigger] pa[i] != ':' by {
            assert(is_digit(pa[i]));
        }
        assert forall|i: int| 0 <= i < pb.len() implies #[trigger] pb[i] != ':' by {
            assert(is_digit(pb[i]));
        }
        lemma_colon_fields(
            signed_decimal_text(a.hwnd as int), pa, title_text(a.title_view()),
            signed_decimal_text(b.hwnd as int), pb, title_text(b.title_view()),
        );
        lemma_signed_text_injective(a.hwnd as int, b.hwnd as int);
    }
}

/// The browsers whose pages the extension reports.
pub open spec fn is_browser_name(lower: Seq<char>) -> bool {
    lower == "chrome.exe"@ || lower == "msedge.exe"@ || lower == "firefox.exe"@ || lower
        == "brave.exe"@
}

/// Whether a process image name (any ASCII case) is a supported browser.
pub fn is_browser_process(process_name: &str) -> (r: bool)
    ensures
        r == is_browser_name(lower_seq(process_name@)),
{
    let lower = to_ascii_lowercase(&chars_of(process_name));
    seq_equal(&lower, &chars_of("chrome.exe")) || seq_equal(&lower, &chars_of("msedge.exe"))
        || seq_equal(&lower, &chars_of("firefox.exe")) || seq_equal(&lower, &chars_of("brave.exe"))
}

/// Law: a process is a supported browser exactly when its image name is
/// `chrome.exe`, `msedge.exe`, `firefox.exe` or `brave.exe`, in any ASCII case.
pub proof fn law_browser_processes(process_name: Seq<char>)
    ensures
        is_browser_name(lower_seq(process_name)) <==> (eq_ignore_case_spec(process_name, "chrome.exe"@)
            || eq_ignore_case_spec(process_name, "msedge.exe"@) || eq_ignore_case_spec(process_name, "firefox.exe"@)
            || eq_ignore_case_spec(process_name, "brave.exe"@)),
{
    reveal_strlit("chrome.exe");
    reveal_strlit("msedge.exe");
    reveal_strlit("firefox.exe");
    reveal_strlit("brave.exe");
    assert(lower_seq("chrome.exe"@) =~= "chrome.exe"@);
    assert(lower_seq("msedge.exe"@) =~= "msedge.exe"@);
    assert(lower_seq("firefox.exe"@) =~= "firefox.exe"@);
    assert(lower_seq("brave.exe"@) =~= "brave.exe"@);
}

} // verus!
