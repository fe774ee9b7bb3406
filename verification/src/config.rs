//! The settings of the proxy.
use crate::rewrite;
use crate::seqs;
use crate::text;
use vstd::prelude::*;

verus! {

/// The port of the proxy.
pub const DEFAULT_PROXY_PORT: u16 = 8899;

/// How many records the store holds.
pub const DEFAULT_CAPTURE_CAPACITY: usize = 5000;

/// How many bytes of a body are kept.
pub const DEFAULT_CAPTURE_BODY_LIMIT: usize = 524288;

/// The port of the dashboard.
pub const DEFAULT_UI_PORT: u16 = 8900;

/// The settings of the proxy.
#[derive(Debug)]
pub struct Config {
    /// The port that the proxy listens on.
    pub port: u16,
    /// The address that the proxy listens on.
    pub host: String,
    /// How many records the store holds.
    pub capture_capacity: usize,
    /// How many bytes of a body are kept.
    pub capture_body_limit: usize,
    /// The file with the rules.
    pub rules_file: Option<String>,
    /// The directory for certificates and settings; `~/.whistle-rs` where there is none.
    pub data_dir: Option<String>,
    /// Whether tunnels can be opened up at all.
    pub decrypt_https: bool,
    /// Whether all tunnels are opened up, or only those that a rule is about.
    pub intercept_all_https: bool,
    /// Whether clients are offered HTTP/2.
    pub enable_http2: bool,
    /// The port of the dashboard.
    pub ui_port: u16,
    /// Whether there is a dashboard.
    pub ui_enabled: bool,
    /// The kind of dashboard: `native` or `whistle`.
    pub ui_mode: String,
    /// The addresses of the plugins by name. No name is there twice.
    pub plugins: Vec<(String, String)>,
}

impl Clone for Config {
    fn clone(&self) -> (r: Self)
        ensures
            r.port == self.port,
            r.host == self.host,
            r.capture_capacity == self.capture_capacity,
            r.capture_body_limit == self.capture_body_limit,
            r.rules_file == self.rules_file,
            r.data_dir == self.data_dir,
            r.decrypt_https == self.decrypt_https,
            r.intercept_all_https == self.intercept_all_https,
            r.enable_http2 == self.enable_http2,
            r.ui_port == self.ui_port,
            r.ui_enabled == self.ui_enabled,
            r.ui_mode == self.ui_mode,
            r.plugins@ == self.plugins@,
            self.wf() ==> r.wf(),
    {
        let mut plugins: Vec<(String, String)> = Vec::new();
        let mut i: usize = 0;
        while i < self.plugins.len()
            invariant
                i <= self.plugins.len(),
                plugins@ =~= self.plugins@.take(i as int),
            decreases self.plugins.len() - i,
        {
            plugins.push((self.plugins[i].0.clone(), self.plugins[i].1.clone()));
            i += 1;
        }
        proof {
            assert(plugins@ =~= self.plugins@);
        }
        Config {
            port: self.port,
            host: self.host.clone(),
            capture_capacity: self.capture_capacity,
            capture_body_limit: self.capture_body_limit,
            rules_file: crate::capture::copy_opt(&self.rules_file),
            data_dir: crate::capture::copy_opt(&self.data_dir),
            decrypt_https: self.decrypt_https,
            intercept_all_https: self.intercept_all_https,
            enable_http2: self.enable_http2,
            ui_port: self.ui_port,
            ui_enabled: self.ui_enabled,
            ui_mode: self.ui_mode.clone(),
            plugins,
        }
    }
}

impl Default for Config {
    fn default() -> (r: Config)
        ensures
            r.port == DEFAULT_PROXY_PORT,
            r.host@ == "127.0.0.1"@,
            r.capture_capacity == DEFAULT_CAPTURE_CAPACITY,
            r.capture_body_limit == DEFAULT_CAPTURE_BODY_LIMIT,
            r.rules_file is None,
            r.data_dir is None,
            r.decrypt_https,
            !r.intercept_all_https,
            !r.enable_http2,
            r.ui_port == DEFAULT_UI_PORT,
            r.ui_enabled,
            r.ui_mode@ == "native"@,
            r.plugins@.len() == 0,
            r.wf(),
    {
        Config {
            port: DEFAULT_PROXY_PORT,
            host: "127.0.0.1".to_string(),
            capture_capacity: DEFAULT_CAPTURE_CAPACITY,
            capture_body_limit: DEFAULT_CAPTURE_BODY_LIMIT,
            rules_file: None,
            data_dir: None,
            decrypt_https: true,
            intercept_all_https: false,
            enable_http2: false,
            ui_port: DEFAULT_UI_PORT,
            ui_enabled: true,
            ui_mode: "native".to_string(),
            plugins: Vec::new(),
        }
    }
}

/// A host and a port as one text.
pub open spec fn host_port(host: Seq<char>, port: u16) -> Seq<char> {
    host + ":"@ + seqs::decimal(port as nat)
}

/// A host and a port as one text.
pub fn join_host_port(host: &str, port: u16) -> (r: String)
    ensures
        r@ == host_port(host@, port),
{
    let digits = text::decimal(port as u64);
    text::cat3(host, ":", digits.as_str())
}

impl Config {
    /// No plugin has two addresses.
    pub open spec fn wf(&self) -> bool {
        rewrite::one_value_each(seqs::text_pairs(self.plugins@))
    }

    /// Sets the address of a plugin.
    pub fn set_plugin(&mut self, name: &str, address: &str)
        requires
            old(self).wf(),
        ensures
            final(self).wf(),
            *final(self) == (Config { plugins: final(self).plugins, ..*old(self) }),
            seqs::text_pairs(final(self).plugins@) == rewrite::with_param(
                seqs::text_pairs(old(self).plugins@),
                name@,
                address@,
            ),
    {
        proof {
            rewrite::law_set_param_is_read_back(
                seqs::text_pairs(self.plugins@),
                name@,
                address@,
            );
        }
        rewrite::set_param(&mut self.plugins, name, address);
    }

    /// The address that the dashboard listens on.
    pub fn ui_addr(&self) -> (r: String)
        ensures
            r@ == host_port(self.host@, self.ui_port),
    {
        join_host_port(self.host.as_str(), self.ui_port)
    }

    /// The address that the proxy listens on.
    pub fn bind_addr(&self) -> (r: String)
        ensures
            r@ == host_port(self.host@, self.port),
    {
        join_host_port(self.host.as_str(), self.port)
    }
}

/// The least important messages that are logged, by how often more were asked for.
pub open spec fn level(verbose: u8) -> Seq<char> {
    if verbose == 0 {
        "info"@
    } else if verbose == 1 {
        "debug"@
    } else {
        "trace"@
    }
}

/// The least important messages that are logged, by how often more were asked for.
pub fn log_level(verbose: u8) -> (r: &'static str)
    ensures
        r@ == level(verbose),
{
    if verbose == 0 {
        "info"
    } else if verbose == 1 {
        "debug"
    } else {
        "trace"
    }
}

// ---- directories ----

/// A path in a directory. A path from the root stands for itself.
pub open spec fn joined(dir: Seq<char>, path: Seq<char>) -> Seq<char> {
    if path.len() > 0 && path[0] == '/' {
        path
    } else if dir.len() == 0 || dir.last() == '/' {
        dir + path
    } else {
        dir + "/"@ + path
    }
}

/// A path in a directory.
pub fn join_path(dir: &str, path: &str) -> (r: String)
    ensures
        r@ == joined(dir@, path@),
{
    let d = text::chars_of(dir);
    let p = text::chars_of(path);
    if p.len() > 0 && p[0] == '/' {
        path.to_string()
    } else if d.len() == 0 || d[d.len() - 1] == '/' {
        text::cat(dir, path)
    } else {
        text::cat3(dir, "/", path)
    }
}

/// The directory for data in a home directory, or in the present one.
pub open spec fn data_dir_in(home: Option<Seq<char>>) -> Seq<char> {
    joined(
        match home {
            Some(h) => h,
            None => "."@,
        },
        ".whistle-rs"@,
    )
}

/// An optional text as its characters.
pub open spec fn opt_slice(s: Option<&str>) -> Option<Seq<char>> {
    match s {
        Some(t) => Some(t@),
        None => None,
    }
}

/// The directory for data in a home directory, or in the present one.
pub fn default_data_dir(home: Option<&str>) -> (r: String)
    ensures
        r@ == data_dir_in(opt_slice(home)),
{
    match home {
        Some(h) => join_path(h, ".whistle-rs"),
        None => join_path(".", ".whistle-rs"),
    }
}

/// The directory for data: the one of the settings, or the one in the home directory.
pub fn data_dir(config: &Config, home: Option<&str>) -> (r: String)
    ensures
        r@ == match config.data_dir {
            Some(d) => d@,
            None => data_dir_in(opt_slice(home)),
        },
{
    match &config.data_dir {
        Some(d) => d.clone(),
        None => default_data_dir(home),
    }
}

// ---- laws ----

/// A host and a port that were joined are read apart again.
pub proof fn law_host_and_port_are_read_back(host: Seq<char>, port: u16, other: u16)
    ensures
        crate::action::authority_of(host_port(host, port), other) == (host, port),
{
    reveal_strlit(":");
    assert(":"@ =~= seq![':']);
    let d = seqs::decimal(port as nat);
    seqs::lemma_decimal(port as nat);
    assert forall|i: int| 0 <= i < d.len() implies #[trigger] d[i] != ':' by {
        assert(seqs::is_digit(d[i]));
    }
    seqs::law_decimal_is_read_back(port as nat, 65535);
    seqs::law_text_is_cut_at_the_last(host, ':', d);
}

/// A path in a directory stands behind it, with one separator between them. A path from the root is
/// in no directory.
pub proof fn law_path_stands_in_its_directory(dir: Seq<char>, path: Seq<char>)
    requires
        path.len() > 0 ==> path[0] != '/',
    ensures
        joined(dir, seq!['/'] + path) == seq!['/'] + path,
        joined(dir + seq!['/'], path) == dir + seq!['/'] + path,
        dir.len() > 0 && dir.last() != '/' ==> joined(dir, path) == dir + seq!['/'] + path,
        joined(Seq::empty(), path) == path,
{
    reveal_strlit("/");
    assert("/"@ =~= seq!['/']);
    assert((seq!['/'] + path)[0] == '/');
    assert((dir + seq!['/']).last() == '/');
    assert(Seq::<char>::empty() + path =~= path);
}

/// The directory for data stands in the home directory under its own name, and in the present one
/// where there is no home.
pub proof fn law_data_stand_in_the_home_directory(home: Seq<char>)
    requires
        home.len() > 0 && home.last() != '/',
    ensures
        data_dir_in(Some(home)) == home + seq!['/'] + ".whistle-rs"@,
        data_dir_in(None) == seq!['.', '/'] + ".whistle-rs"@,
{
    reveal_strlit(".whistle-rs");
    reveal_strlit(".");
    assert("."@ =~= seq!['.']);
    law_path_stands_in_its_directory(home, ".whistle-rs"@);
    law_path_stands_in_its_directory("."@, ".whistle-rs"@);
    assert("."@ + seq!['/'] =~= seq!['.', '/']);
}

/// More is logged the more often it was asked for, up to the most that there is.
pub proof fn law_more_is_logged_when_asked_for(verbose: u8)
    ensures
        level(0) == "info"@,
        verbose == 1 ==> level(verbose) == "debug"@,
        verbose >= 2 ==> level(verbose) == "trace"@,
{
}

/// Unless it is told otherwise, the proxy listens on port 8899 and the dashboard on 8900, 5000
/// records are held, and half a mebibyte of each body.
pub proof fn law_settings_that_need_not_be_told()
    ensures
        DEFAULT_PROXY_PORT == 8899,
        DEFAULT_UI_PORT == 8900,
        DEFAULT_CAPTURE_CAPACITY == 5000,
        DEFAULT_CAPTURE_BODY_LIMIT == 512 * 1024,
{
}

} // verus!
