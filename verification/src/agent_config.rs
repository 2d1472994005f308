//! Configuration of the stand-alone agent: its defaults, the self-hosted web UI
//! address, and path resolution against the runtime root.

use vstd::prelude::*;
use crate::text::{chars_of, string_from, trim, seq_equal, contains, occurs_spec, trim_spec};
use crate::paths::{join, parent, join_spec, parent_spec};
use crate::config::{
    resolve_path, resolve_path_spec, absolutize_from, self_hosted_url, self_hosted_url_text,
    string_views, parent_list,
    DEFAULT_LISTEN_ADDR, DEFAULT_WEB_UI_URL, LEGACY_DEV_WEB_UI_URL,
};

verus! {

/// Where the agent looks for its configuration under the runtime root.
pub const AGENT_CONFIG_PATH: &'static str = "config/timeline-agent.toml";

/// Settings read from `timeline-agent.toml`. Paths are Windows path text.
#[derive(Clone, Debug)]
pub struct AppConfig {
    pub database_path: String,
    pub lockfile_path: String,
    pub listen_addr: String,
    pub web_ui_url: String,
    pub idle_threshold_secs: u64,
    pub poll_interval_millis: u64,
    pub debug: bool,
    pub tray_enabled: bool,
    pub record_window_titles: bool,
    pub record_page_titles: bool,
    pub ignored_apps: Vec<String>,
    pub ignored_domains: Vec<String>,
}

impl AppConfig {
    pub open spec fn is_default(self) -> bool {
        &&& self.database_path@ == "data/timeline.sqlite"@
        &&& self.lockfile_path@ == "data/timeline-agent.lock"@
        &&& self.listen_addr@ == DEFAULT_LISTEN_ADDR@
        &&& self.web_ui_url@ == DEFAULT_WEB_UI_URL@
        &&& self.idle_threshold_secs == 300
        &&& self.poll_interval_millis == 1000
        &&& self.debug
        &&& self.tray_enabled
        &&& self.record_window_titles
        &&& self.record_page_titles
        &&& self.ignored_apps@.len() == 0
        &&& self.ignored_domains@.len() == 0
    }

    /// The agent's defaults: loopback listener on port 46215, five-minute idle
    /// threshold, one-second polling, debug output and titles recorded.
    pub fn default_config() -> (r: AppConfig)
        ensures
            r.is_default(),
    {
        AppConfig {
            database_path: String::from_str("data/timeline.sqlite"),
            lockfile_path: String::from_str("data/timeline-agent.lock"),
            listen_addr: String::from_str(DEFAULT_LISTEN_ADDR),
            web_ui_url: String::from_str(DEFAULT_WEB_UI_URL),
            idle_threshold_secs: 300,
            poll_interval_millis: 1_000,
            debug: true,
            tray_enabled: true,
            record_window_titles: true,
            record_page_titles: true,
            ignored_apps: Vec::new(),
            ignored_domains: Vec::new(),
        }
    }

    /// The URL at which the agent serves its own web UI.
    pub open spec fn self_hosted_url_spec(self) -> Seq<char> {
        self_hosted_url(self.listen_addr@)
    }

    pub fn self_hosted_web_ui_url(&self) -> (r: String)
        ensures
            r@ == self.self_hosted_url_spec(),
    {
        self_hosted_url_text(self.listen_addr.as_str())
    }

    /// The web UI address to open: the configured one, unless it is blank, the
    /// legacy development address or the default, in which case the self-hosted one.
    pub fn effective_web_ui_url(&self) -> (r: String)
        ensures
            (trim_spec(self.web_ui_url@).len() == 0 || self.web_ui_url@ == LEGACY_DEV_WEB_UI_URL@
                || self.web_ui_url@ == DEFAULT_WEB_UI_URL@) ==> r@ == self.self_hosted_url_spec(),
            !(trim_spec(self.web_ui_url@).len() == 0 || self.web_ui_url@ == LEGACY_DEV_WEB_UI_URL@
                || self.web_ui_url@ == DEFAULT_WEB_UI_URL@) ==> r@ == self.web_ui_url@,
    {
        let url = chars_of(self.web_ui_url.as_str());
        let trimmed = trim(&url);
        if trimmed.len() == 0 || seq_equal(&url, &chars_of(LEGACY_DEV_WEB_UI_URL)) || seq_equal(
            &url,
            &chars_of(DEFAULT_WEB_UI_URL),
        ) {
            return self.self_hosted_web_ui_url();
        }
        self.web_ui_url.clone()
    }

    /// Settles the web UI address after the file text `file_text` was parsed: a file
    /// that does not mention `web_ui_url`, or names the legacy development address,
    /// gets the self-hosted address.
    pub fn settle_web_ui_url(&mut self, file_text: &str)
        ensures
            (!occurs_spec(file_text@, "web_ui_url"@) || old(self).web_ui_url@ == LEGACY_DEV_WEB_UI_URL@)
                ==> final(self).web_ui_url@ == old(self).self_hosted_url_spec(),
            !(!occurs_spec(file_text@, "web_ui_url"@) || old(self).web_ui_url@ == LEGACY_DEV_WEB_UI_URL@)
                ==> final(self).web_ui_url == old(self).web_ui_url,
            final(self).listen_addr == old(self).listen_addr,
            final(self).database_path == old(self).database_path,
            final(self).lockfile_path == old(self).lockfile_path,
    {
        let mentions = contains(&chars_of(file_text), &chars_of("web_ui_url"));
        let legacy = seq_equal(&chars_of(self.web_ui_url.as_str()), &chars_of(LEGACY_DEV_WEB_UI_URL));
        if !mentions || legacy {
            self.web_ui_url = self.self_hosted_web_ui_url();
        }
    }

    /// Directories that must exist before the store and the lock file are opened:
    /// the parents of the database and lock-file paths, in that order.
    pub fn ensure_parent_dirs(&self) -> (r: Vec<String>)
        ensures
            string_views(r@) == parent_list(self.database_path@) + parent_list(self.lockfile_path@),
    {
        let mut dirs: Vec<String> = Vec::new();
        if let Some(p) = parent(&chars_of(self.database_path.as_str())) {
            dirs.push(string_from(&p));
        }
        assert(string_views(dirs@) =~= parent_list(self.database_path@));
        let ghost before = dirs@;
        if let Some(p) = parent(&chars_of(self.lockfile_path.as_str())) {
            dirs.push(string_from(&p));
        }
        assert(string_views(dirs@) =~= string_views(before) + parent_list(self.lockfile_path@));
        dirs
    }

    /// Resolves the data paths against `runtime_root`.
    pub fn resolve_relative_paths(&mut self, runtime_root: &str)
        ensures
            final(self).database_path@ == resolve_path_spec(runtime_root@, old(self).database_path@),
            final(self).lockfile_path@ == resolve_path_spec(runtime_root@, old(self).lockfile_path@),
            final(self).listen_addr == old(self).listen_addr,
            final(self).web_ui_url == old(self).web_ui_url,
            final(self).idle_threshold_secs == old(self).idle_threshold_secs,
            final(self).poll_interval_millis == old(self).poll_interval_millis,
            final(self).ignored_apps == old(self).ignored_apps,
            final(self).ignored_domains == old(self).ignored_domains,
    {
        let db = resolve_path(runtime_root, self.database_path.as_str());
        let lock = resolve_path(runtime_root, self.lockfile_path.as_str());
        self.database_path = db;
        self.lockfile_path = lock;
    }
}

/// The agent's configuration file: an explicit path made absolute against the
/// working directory, else `config/timeline-agent.toml` under the runtime root.
pub fn resolve_config_path(explicit_path: Option<&str>, current_dir: &str, runtime_root: &str) -> (r: String)
    ensures
        explicit_path matches Some(p) ==> r@ == resolve_path_spec(current_dir@, p@),
        explicit_path is None ==> r@ == join_spec(runtime_root@, AGENT_CONFIG_PATH@),
{
    match explicit_path {
        Some(p) => absolutize_from(current_dir, p),
        None => string_from(&join(&chars_of(runtime_root), &chars_of(AGENT_CONFIG_PATH))),
    }
}

/// The candidates the agent tries as its runtime root: the working directory, then
/// the executable's directory, its parent and its grandparent.
pub fn runtime_root_candidates(current_dir: &str, current_exe: Option<&str>) -> (r: Vec<String>)
    ensures
        string_views(r@) == seq![current_dir@] + match current_exe {
            None => Seq::<Seq<char>>::empty(),
            Some(exe) => match parent_spec(exe@) {
                None => Seq::<Seq<char>>::empty(),
                Some(d) => seq![d] + match parent_spec(d) {
                    None => Seq::<Seq<char>>::empty(),
                    Some(p) => seq![p] + parent_list(p),
                },
            },
        },
{
    let mut out: Vec<String> = Vec::new();
    out.push(String::from_str(current_dir));
    if let Some(exe) = current_exe {
        if let Some(d) = parent(&chars_of(exe)) {
            out.push(string_from(&d));
            if let Some(p) = parent(&d) {
                out.push(string_from(&p));
                if let Some(g) = parent(&p) {
                    out.push(string_from(&g));
                }
            }
        }
    }
    let ghost tail = match current_exe {
        None => Seq::<Seq<char>>::empty(),
        Some(exe) => match parent_spec(exe@) {
            None => Seq::<Seq<char>>::empty(),
            Some(d) => seq![d] + match parent_spec(d) {
                None => Seq::<Seq<char>>::empty(),
                Some(p) => seq![p] + parent_list(p),
            },
        },
    };
    assert(string_views(out@) =~= seq![current_dir@] + tail);
    out
}

/// The paths whose presence marks `root` as the agent's runtime root: files first,
/// then directories.
pub fn runtime_root_markers(root: &str) -> (r: (Vec<String>, Vec<String>))
    ensures
        string_views(r.0@) == seq![
            join_spec(root@, AGENT_CONFIG_PATH@),
            join_spec(root@, "Cargo.toml"@),
            join_spec(root@, "web-ui/dist/index.html"@),
        ],
        string_views(r.1@) == seq![join_spec(root@, "apps/web-ui"@)],
{
    let base = chars_of(root);
    let mut files: Vec<String> = Vec::new();
    files.push(string_from(&join(&base, &chars_of(AGENT_CONFIG_PATH))));
    files.push(string_from(&join(&base, &chars_of("Cargo.toml"))));
    files.push(string_from(&join(&base, &chars_of("web-ui/dist/index.html"))));
    let mut dirs: Vec<String> = Vec::new();
    dirs.push(string_from(&join(&base, &chars_of("apps/web-ui"))));
    assert(string_views(files@) =~= seq![
        join_spec(root@, AGENT_CONFIG_PATH@),
        join_spec(root@, "Cargo.toml"@),
        join_spec(root@, "web-ui/dist/index.html"@),
    ]);
    assert(string_views(dirs@) =~= seq![join_spec(root@, "apps/web-ui"@)]);
    (files, dirs)
}

/// The agent's runtime root: the first candidate that looks like one (each comes
/// with whether it does), else the working directory.
pub fn discover_runtime_root(candidates: &Vec<(String, bool)>, current_dir: String) -> (r: String)
    ensures
        (exists|i: int| 0 <= i < candidates@.len() && (#[trigger] candidates@[i]).1) ==> exists|i: int|
            0 <= i < candidates@.len() && candidates@[i].1 && r == (#[trigger] candidates@[i]).0
                && forall|k: int| 0 <= k < i ==> !(#[trigger] candidates@[k]).1,
        !(exists|i: int| 0 <= i < candidates@.len() && (#[trigger] candidates@[i]).1) ==> r
            == current_dir,
{
    let mut i: usize = 0;
    while i < candidates.len()
        invariant
            i <= candidates@.len(),
            forall|k: int| 0 <= k < i ==> !(#[trigger] candidates@[k]).1,
        decreases candidates@.len() - i,
    {
        if candidates[i].1 {
            return candidates[i].0.clone();
        }
        i += 1;
    }
    current_dir
}

} // verus!
