//! Application configuration: user settings, per-game install paths, and
//! the stored account session.  Reading and writing the configuration
//! file is the unverified shell's job.

use vstd::prelude::*;

use crate::text::str_eq;

verus! {

/// User-tunable settings.
#[derive(Debug)]
pub struct AppSettings {
    pub theme: String,
    pub language: String,
    pub download_path: String,
    pub download_concurrency: usize,
    pub download_threads: usize,
    pub proxy_url: Option<String>,
}

impl Default for AppSettings {
    /// The settings a fresh install starts with.
    fn default() -> (s: Self)
        ensures
            s.theme@ == "dark"@,
            s.language@ == "zh-CN"@,
            s.download_path@.len() == 0,
            s.download_concurrency == 8,
            s.download_threads == 3,
            s.proxy_url is None,
    {
        AppSettings {
            theme: "dark".to_owned(),
            language: "zh-CN".to_owned(),
            download_path: String::new(),
            download_concurrency: 8,
            download_threads: 3,
            proxy_url: Option::None,
        }
    }
}

/// A stored account session.
#[derive(Debug)]
pub struct HypergryphSession {
    pub phone_masked: String,
    pub uid: String,
    pub token: String,
}

/// The whole persisted configuration.  Install paths are a table keyed
/// by game id.
#[derive(Debug)]
pub struct AppConfig {
    pub settings: AppSettings,
    pub game_paths: Vec<(String, String)>,
    pub hypergryph_session: Option<HypergryphSession>,
}

/// The table has a path for the game.
pub open spec fn has_game_path(paths: Seq<(String, String)>, id: Seq<char>) -> bool {
    exists|i: int| 0 <= i < paths.len() && (#[trigger] paths[i]).0@ == id
}

impl AppConfig {
    /// No two entries name the same game.
    pub open spec fn wf(&self) -> bool {
        forall|i: int, j: int|
            0 <= i < j < self.game_paths@.len() ==> (#[trigger] self.game_paths@[i].0@) != (
            #[trigger] self.game_paths@[j].0@)
    }

    /// A fresh configuration: default settings, no paths, no session.
    pub fn fresh() -> (c: Self)
        ensures
            c.wf(),
            c.game_paths@.len() == 0,
            c.hypergryph_session is None,
    {
        AppConfig {
            settings: Default::default(),
            game_paths: Vec::new(),
            hypergryph_session: Option::None,
        }
    }

    fn path_index(&self, game_id: &str) -> (r: Option<usize>)
        ensures
            match r {
                Option::Some(i) => i < self.game_paths@.len() && self.game_paths@[i as int].0@
                    == game_id@,
                Option::None => !has_game_path(self.game_paths@, game_id@),
            },
    {
        let n = self.game_paths.len();
        let mut i: usize = 0;
        while i < n
            invariant
                n == self.game_paths@.len(),
                i <= n,
                forall|j: int| 0 <= j < i ==> (#[trigger] self.game_paths@[j].0@) != game_id@,
            decreases n - i,
        {
            if str_eq(self.game_paths[i].0.as_str(), game_id) {
                return Option::Some(i);
            }
            i = i + 1;
        }
        Option::None
    }

    /// The stored install path of a game, if any.
    pub fn get_game_path(&self, game_id: &str) -> (r: Option<String>)
        ensures
            match r {
                Option::Some(p) => exists|i: int|
                    0 <= i < self.game_paths@.len() && (#[trigger] self.game_paths@[i]).0@
                        == game_id@ && self.game_paths@[i].1@ == p@,
                Option::None => !has_game_path(self.game_paths@, game_id@),
            },
    {
        match self.path_index(game_id) {
            Option::Some(i) => Option::Some(self.game_paths[i].1.clone()),
            Option::None => Option::None,
        }
    }

    /// Store or clear a game's install path.
    pub fn set_game_path(&mut self, game_id: &str, path: Option<String>)
        requires
            old(self).wf(),
        ensures
            final(self).wf(),
            match path {
                Option::Some(p) => exists|i: int|
                    0 <= i < final(self).game_paths@.len() && (
                    #[trigger] final(self).game_paths@[i]).0@ == game_id@ && final(self).game_paths@[i].1@ == p@,
                Option::None => !has_game_path(final(self).game_paths@, game_id@),
            },
            forall|i: int|
                0 <= i < old(self).game_paths@.len() && (#[trigger] old(self).game_paths@[i]).0@
                    != game_id@ ==> exists|j: int|
                    0 <= j < final(self).game_paths@.len() && final(self).game_paths@[j] == old(self).game_paths@[i],
            forall|j: int|
                0 <= j < final(self).game_paths@.len() ==> (
                #[trigger] final(self).game_paths@[j]).0@ == game_id@ || exists|i: int|
                    0 <= i < old(self).game_paths@.len() && old(self).game_paths@[i] == final(self).game_paths@[j],
    {
        let found = self.path_index(game_id);
        let ghost pre = self.game_paths@;
        match found {
            Option::Some(i) => {
                match path {
                    Option::Some(p) => {
                        let key = self.game_paths[i].0.clone();
                        self.game_paths.set(i, (key, p));
                        proof {
                            assert(forall|j: int|
                                0 <= j < self.game_paths@.len() && j != i
                                    ==> self.game_paths@[j] == pre[j]);
                            assert(self.game_paths@[i as int].0 == pre[i as int].0);
                            assert forall|a: int, b: int|
                                0 <= a < b < self.game_paths@.len() implies (
                            #[trigger] self.game_paths@[a].0@) != (
                            #[trigger] self.game_paths@[b].0@) by {
                                assert(pre[a].0@ != pre[b].0@);
                            }
                        }
                    },
                    Option::None => {
                        self.game_paths.remove(i);
                        proof {
                            assert forall|a: int, b: int|
                                0 <= a < b < self.game_paths@.len() implies (
                            #[trigger] self.game_paths@[a].0@) != (
                            #[trigger] self.game_paths@[b].0@) by {
                                let a0 = if a < i {
                                    a
                                } else {
                                    a + 1
                                };
                                let b0 = if b < i {
                                    b
                                } else {
                                    b + 1
                                };
                                assert(self.game_paths@[a] == pre[a0]);
                                assert(self.game_paths@[b] == pre[b0]);
                                assert(pre[a0].0@ != pre[b0].0@);
                            }
                            assert forall|j: int|
                                0 <= j < self.game_paths@.len() implies (
                            #[trigger] self.game_paths@[j]).0@ != game_id@ by {
                                if j < i {
                                    assert(self.game_paths@[j] == pre[j]);
                                    assert(pre[j].0@ != pre[i as int].0@);
                                } else {
                                    assert(self.game_paths@[j] == pre[j + 1]);
                                    assert(pre[j + 1].0@ != pre[i as int].0@);
                                }
                            }
                            assert forall|i2: int|
                                0 <= i2 < pre.len() && (#[trigger] pre[i2].0@) != game_id@
                                    implies exists|j: int|
                                0 <= j < self.game_paths@.len() && self.game_paths@[j]
                                    == pre[i2] by {
                                if i2 < i {
                                    assert(self.game_paths@[i2] == pre[i2]);
                                } else {
                                    assert(i2 != i);
                                    assert(self.game_paths@[i2 - 1] == pre[i2]);
                                }
                            }
                            assert forall|j: int|
                                0 <= j < self.game_paths@.len() implies exists|i2: int|
                                0 <= i2 < pre.len() && pre[i2] == (
                                #[trigger] self.game_paths@[j]) by {
                                if j < i {
                                    assert(pre[j] == self.game_paths@[j]);
                                } else {
                                    assert(pre[j + 1] == self.game_paths@[j]);
                                }
                            }
                        }
                    },
                }
            },
            Option::None => {
                match path {
                    Option::Some(p) => {
                        self.game_paths.push((game_id.to_owned(), p));
                        proof {
                            let last = self.game_paths@.len() - 1;
                            assert(self.game_paths@[last].0@ == game_id@);
                            assert(forall|j: int| 0 <= j < last ==> self.game_paths@[j] == pre[j]);
                            assert forall|a: int, b: int|
                                0 <= a < b < self.game_paths@.len() implies (
                            #[trigger] self.game_paths@[a].0@) != (
                            #[trigger] self.game_paths@[b].0@) by {
                                if b == last {
                                    assert(self.game_paths@[a] == pre[a]);
                                    assert(pre[a].0@ != game_id@);
                                } else {
                                    assert(self.game_paths@[a] == pre[a]);
                                    assert(self.game_paths@[b] == pre[b]);
                                    assert(pre[a].0@ != pre[b].0@);
                                }
                            }
                        }
                    },
                    Option::None => {},
                }
            },
        }
    }
}

} // verus!
