//! XDG-style path resolution for tars directories.
//!
//! Resolution is dependency-injected: hand [`Paths::detect`] a snapshot of the environment, or
//! [`Paths::from_home`] a specific `HOME` (used in tests and sandboxed runs). All file lookups
//! (config, models, socket) go through a `&Paths`, so callers never re-read process-global
//! environment variables.

use vstd::prelude::*;

use crate::path::join;
use crate::text::u64_text;

verus! {

/// The part of the environment that decides the layout.
#[derive(Debug)]
pub struct Environment {
    pub xdg_config_home: Option<String>,
    pub xdg_data_home: Option<String>,
    pub xdg_runtime_dir: Option<String>,
    pub xdg_state_home: Option<String>,
    pub home: Option<String>,
    /// The process id.
    pub pid: u32,
}

/// Resolved tars directory layout.
#[derive(Debug, PartialEq, Eq)]
pub struct Paths {
    config_dir: String,
    data_dir: String,
    runtime_dir: String,
    state_dir: String,
}

/// What [`Paths`] hold.
#[verifier::ext_equal]
pub struct PathsView {
    pub config_dir: Seq<char>,
    pub data_dir: Seq<char>,
    pub runtime_dir: Seq<char>,
    pub state_dir: Seq<char>,
}

impl View for Paths {
    type V = PathsView;

    closed spec fn view(&self) -> PathsView {
        PathsView {
            config_dir: self.config_dir@,
            data_dir: self.data_dir@,
            runtime_dir: self.runtime_dir@,
            state_dir: self.state_dir@,
        }
    }
}

impl Clone for Paths {
    fn clone(&self) -> (r: Self)
        ensures
            r@ == self@,
    {
        Paths {
            config_dir: self.config_dir.clone(),
            data_dir: self.data_dir.clone(),
            runtime_dir: self.runtime_dir.clone(),
            state_dir: self.state_dir.clone(),
        }
    }
}

/// A path of two components inside a directory.
pub open spec fn joined2(base: Seq<char>, a: Seq<char>, b: Seq<char>) -> Seq<char> {
    crate::path::joined(crate::path::joined(base, a), b)
}

/// A path of three components inside a directory.
pub open spec fn joined3(base: Seq<char>, a: Seq<char>, b: Seq<char>, c: Seq<char>) -> Seq<char> {
    crate::path::joined(joined2(base, a, b), c)
}

/// The layout under a home directory.
pub open spec fn home_layout(home: Seq<char>) -> PathsView {
    PathsView {
        config_dir: joined2(home, ".config"@, "tars"@),
        data_dir: joined3(home, ".local"@, "share"@, "tars"@),
        runtime_dir: crate::path::joined(home, ".tars"@),
        state_dir: joined3(home, ".local"@, "state"@, "tars"@),
    }
}

/// A directory: named by its own variable, else under the home directory, else under `/tmp`.
pub open spec fn placed(
    xdg: Option<Seq<char>>,
    at_home: Option<Seq<char>>,
    fallback: Seq<char>,
) -> Seq<char> {
    match xdg {
        Some(dir) => crate::path::joined(dir, "tars"@),
        None => match at_home {
            Some(dir) => dir,
            None => crate::path::joined("/tmp"@, fallback),
        },
    }
}

/// The layout that the environment asks for.
pub open spec fn detected(e: Environment) -> PathsView {
    let at_home = match e.home.deep_view() {
        Some(h) => Some(home_layout(h)),
        None => None,
    };
    PathsView {
        config_dir: placed(
            e.xdg_config_home.deep_view(),
            match at_home {
                Some(l) => Some(l.config_dir),
                None => None,
            },
            "tars-config"@,
        ),
        data_dir: placed(
            e.xdg_data_home.deep_view(),
            match at_home {
                Some(l) => Some(l.data_dir),
                None => None,
            },
            "tars-data"@,
        ),
        runtime_dir: placed(
            e.xdg_runtime_dir.deep_view(),
            match at_home {
                Some(l) => Some(l.runtime_dir),
                None => None,
            },
            "tars-"@ + crate::text::decimal(e.pid as nat),
        ),
        state_dir: placed(
            e.xdg_state_home.deep_view(),
            match at_home {
                Some(l) => Some(l.state_dir),
                None => None,
            },
            "tars-state"@,
        ),
    }
}

/// A directory: named by its own variable, else under the home directory, else under `/tmp`.
fn place(xdg: &Option<String>, at_home: Option<String>, fallback: &str) -> (r: String)
    ensures
        r@ == placed(xdg.deep_view(), at_home.deep_view(), fallback@),
{
    match xdg {
        Some(dir) => join(dir.as_str(), "tars"),
        None => match at_home {
            Some(dir) => dir,
            None => join("/tmp", fallback),
        },
    }
}

impl Paths {
    /// The directory layout that the environment asks for.
    ///
    /// Honour the `XDG_*` variables when set, fall back to `$HOME`-relative paths, and when even
    /// `$HOME` is unset (containers, minimal environments) fall back to namespaced `/tmp`
    /// directories, so that files never collide with unrelated `/tmp` entries.
    pub fn detect(env: &Environment) -> (r: Self)
        ensures
            r@ == detected(*env),
    {
        let mut runtime_fallback: String = "tars-".to_owned();
        runtime_fallback.append(u64_text(env.pid as u64).as_str());
        let (config_home, data_home, runtime_home, state_home): (
            Option<String>,
            Option<String>,
            Option<String>,
            Option<String>,
        ) = match &env.home {
            Some(h) => {
                let p = Paths::from_home(h.as_str());
                (Some(p.config_dir), Some(p.data_dir), Some(p.runtime_dir), Some(p.state_dir))
            },
            None => (None, None, None, None),
        };
        Paths {
            config_dir: place(&env.xdg_config_home, config_home, "tars-config"),
            data_dir: place(&env.xdg_data_home, data_home, "tars-data"),
            runtime_dir: place(&env.xdg_runtime_dir, runtime_home, runtime_fallback.as_str()),
            state_dir: place(&env.xdg_state_home, state_home, "tars-state"),
        }
    }

    /// Build the layout from a specific `HOME`, ignoring `XDG_*` overrides.
    pub fn from_home(home: &str) -> (r: Self)
        ensures
            r@ == home_layout(home@),
    {
        Paths {
            config_dir: join(join(home, ".config").as_str(), "tars"),
            data_dir: join(join(join(home, ".local").as_str(), "share").as_str(), "tars"),
            runtime_dir: join(home, ".tars"),
            state_dir: join(join(join(home, ".local").as_str(), "state").as_str(), "tars"),
        }
    }

    /// `$XDG_CONFIG_HOME/tars` (or `~/.config/tars`). User-editable config.
    pub fn config_dir(&self) -> (r: &str)
        ensures
            r@ == self@.config_dir,
    {
        self.config_dir.as_str()
    }

    /// `$XDG_DATA_HOME/tars` (or `~/.local/share/tars`). User data.
    pub fn data_dir(&self) -> (r: &str)
        ensures
            r@ == self@.data_dir,
    {
        self.data_dir.as_str()
    }

    /// `$XDG_RUNTIME_DIR/tars` (or `~/.tars`). Short-lived runtime files.
    pub fn runtime_dir(&self) -> (r: &str)
        ensures
            r@ == self@.runtime_dir,
    {
        self.runtime_dir.as_str()
    }

    /// `$XDG_STATE_HOME/tars` (or `~/.local/state/tars`). Durable machine state that is not
    /// user-editable config: logs, crash dumps.
    pub fn state_dir(&self) -> (r: &str)
        ensures
            r@ == self@.state_dir,
    {
        self.state_dir.as_str()
    }

    /// `state_dir()/logs`.
    pub fn logs_dir(&self) -> (r: String)
        ensures
            r@ == crate::path::joined(self@.state_dir, "logs"@),
    {
        join(self.state_dir.as_str(), "logs")
    }

    /// Default unix-socket path for the tars server.
    pub fn socket_path(&self) -> (r: String)
        ensures
            r@ == crate::path::joined(self@.runtime_dir, "tars.sock"@),
    {
        join(self.runtime_dir.as_str(), "tars.sock")
    }

    /// PID file next to the socket.
    pub fn pid_path(&self) -> (r: String)
        ensures
            r@ == crate::path::joined(self@.runtime_dir, "tars.pid"@),
    {
        join(self.runtime_dir.as_str(), "tars.pid")
    }

    /// `config_dir()/providers.toml`.
    pub fn providers_path(&self) -> (r: String)
        ensures
            r@ == crate::path::joined(self@.config_dir, "providers.toml"@),
    {
        join(self.config_dir.as_str(), "providers.toml")
    }

    /// `config_dir()/models.toml` (model aliases).
    pub fn models_path(&self) -> (r: String)
        ensures
            r@ == crate::path::joined(self@.config_dir, "models.toml"@),
    {
        join(self.config_dir.as_str(), "models.toml")
    }

    /// Operator config directory for a project: `config_dir()/projects/{name}`.
    pub fn project_config_dir(&self, name: &str) -> (r: String)
        ensures
            r@ == joined2(self@.config_dir, "projects"@, name@),
    {
        join(join(self.config_dir.as_str(), "projects").as_str(), name)
    }
}

/// Each directory is the one that its own variable names; without it, its usual place under the home
/// directory; without that, a place of its own under the directory for temporary files.
pub proof fn law_directories(e: Environment)
    ensures
        ({
            let p = detected(e);
            let home = e.home.deep_view();
            &&& e.xdg_config_home.deep_view() matches Some(d) ==> p.config_dir
                == crate::path::joined(d, "tars"@)
            &&& e.xdg_data_home.deep_view() matches Some(d) ==> p.data_dir == crate::path::joined(
                d,
                "tars"@,
            )
            &&& e.xdg_runtime_dir.deep_view() matches Some(d) ==> p.runtime_dir
                == crate::path::joined(d, "tars"@)
            &&& e.xdg_state_home.deep_view() matches Some(d) ==> p.state_dir == crate::path::joined(
                d,
                "tars"@,
            )
            &&& e.xdg_config_home is None ==> (home matches Some(h) ==> p.config_dir
                == crate::path::joined(crate::path::joined(h, ".config"@), "tars"@))
            &&& e.xdg_data_home is None ==> (home matches Some(h) ==> p.data_dir
                == crate::path::joined(
                crate::path::joined(crate::path::joined(h, ".local"@), "share"@),
                "tars"@,
            ))
            &&& e.xdg_runtime_dir is None ==> (home matches Some(h) ==> p.runtime_dir
                == crate::path::joined(h, ".tars"@))
            &&& e.xdg_state_home is None ==> (home matches Some(h) ==> p.state_dir
                == crate::path::joined(
                crate::path::joined(crate::path::joined(h, ".local"@), "state"@),
                "tars"@,
            ))
            &&& e.xdg_config_home is None && home is None ==> p.config_dir == crate::path::joined(
                "/tmp"@,
                "tars-config"@,
            )
        }),
{
}

} // verus!
