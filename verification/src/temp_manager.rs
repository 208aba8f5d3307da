//! Temporary-file bookkeeping: unique names, tracked paths and the file
//! limit.  The library computes the paths and keeps the ledgers; creating,
//! writing and removing the files on disk is its caller's part.

use vstd::prelude::*;
use crate::digits::{spec_hex, u128_to_hex};
use crate::error::TranslationError;
use std::time::{SystemTime, UNIX_EPOCH};

verus! {

/// Settings of the bookkeeping: where temporary files live, whether they
/// are cleaned up automatically, their name prefix, and how many may be
/// tracked at once.
pub struct TempManagerConfig {
    /// Root directory for temporary files.
    pub temp_dir: String,
    /// Whether tracked files are removed when the manager is dropped.
    pub auto_cleanup: bool,
    /// Name prefix of temporary files.
    pub file_prefix: String,
    /// How many temporary files may be tracked at once.
    pub max_temp_files: usize,
}

impl Default for TempManagerConfig {
    /// Files under `/tmp/translation-cli`, named `translate_...`, cleaned
    /// up automatically, at most one hundred at a time.
    fn default() -> (r: TempManagerConfig)
        ensures
            r.temp_dir@ == "/tmp/translation-cli"@,
            r.auto_cleanup == true,
            r.file_prefix@ == "translate"@,
            r.max_temp_files == 100,
    {
        TempManagerConfig {
            temp_dir: String::from_str("/tmp/translation-cli"),
            auto_cleanup: true,
            file_prefix: String::from_str("translate"),
            max_temp_files: 100,
        }
    }
}

/// The shape of a generated unique identifier: two hexadecimal numerals
/// joined by an underscore.
pub open spec fn is_unique_id(s: Seq<char>) -> bool {
    exists|a: nat, b: nat| s == #[trigger] (spec_hex(a) + "_"@ + spec_hex(b))
}

/// The shape of a path this manager hands out for a file: the root
/// directory, the prefix, a unique identifier and the suffix.
pub open spec fn is_managed_file_path(
    config: TempManagerConfig,
    suffix: Seq<char>,
    p: Seq<char>,
) -> bool {
    exists|id: Seq<char>|
        #[trigger] is_unique_id(id) && p == config.temp_dir@ + "/"@ + config.file_prefix@ + "_"@
            + id + "."@ + suffix
}

/// The shape of a path this manager hands out for a working directory:
/// the root directory, the prefix, `_work_` and a unique identifier.
pub open spec fn is_managed_work_dir_path(config: TempManagerConfig, p: Seq<char>) -> bool {
    exists|id: Seq<char>|
        #[trigger] is_unique_id(id) && p == config.temp_dir@ + "/"@ + config.file_prefix@ + "_"@
            + ("work_"@ + id)
}

/// The predicate that keeps every path other than `path`.
pub open spec fn keeps_other_than(path: Seq<char>) -> spec_fn(String) -> bool {
    |p: String| p@ != path
}

/// Tracks the temporary files and directories handed out so far.
pub struct TempManager {
    /// The settings.
    pub config: TempManagerConfig,
    /// Paths of tracked files.
    pub tracked_files: Vec<String>,
    /// Paths of tracked directories.
    pub tracked_dirs: Vec<String>,
}

/// Relies on `std::time::SystemTime`: the nanoseconds since the Unix
/// epoch, a fresh reading on every call, zero if the clock lies before
/// the epoch.
#[verifier::external_body]
fn current_unix_nanos() -> u128 {
    match SystemTime::now().duration_since(UNIX_EPOCH) {
        Ok(d) => d.as_nanos(),
        Err(_) => 0,
    }
}

impl TempManager {
    /// Starts bookkeeping with the given settings and nothing tracked.
    pub fn new(config: TempManagerConfig) -> (r: TempManager)
        ensures
            r.config == config,
            r.tracked_files@.len() == 0,
            r.tracked_dirs@.len() == 0,
    {
        TempManager { config, tracked_files: Vec::new(), tracked_dirs: Vec::new() }
    }

    /// Starts bookkeeping with the default settings.
    pub fn default() -> (r: TempManager)
        ensures
            r.config.temp_dir@ == "/tmp/translation-cli"@,
            r.config.auto_cleanup == true,
            r.config.file_prefix@ == "translate"@,
            r.config.max_temp_files == 100,
            r.tracked_files@.len() == 0,
            r.tracked_dirs@.len() == 0,
    {
        TempManager::new(TempManagerConfig::default())
    }

    /// Whether another file may be tracked; the error names the limit
    /// check.
    pub fn check_file_limit(&self) -> (r: Result<(), TranslationError>)
        ensures
            r is Ok <==> self.tracked_files@.len() < self.config.max_temp_files,
            r is Err ==> r->Err_0 is TempFileManagement,
    {
        if self.tracked_files.len() >= self.config.max_temp_files {
            Err(
                TranslationError::TempFileManagement {
                    operation: String::from_str("create"),
                    details: String::from_str("tracked files reached the configured limit"),
                },
            )
        } else {
            Ok(())
        }
    }

    /// A fresh identifier: the hexadecimal of two clock readings joined
    /// by an underscore.  Distinctness rests on the clock moving between
    /// calls.
    pub fn generate_unique_id(&self) -> (r: String)
        ensures
            is_unique_id(r@),
    {
        let t1 = current_unix_nanos();
        let t2 = current_unix_nanos();
        let mut s = u128_to_hex(t1);
        s.append("_");
        let h2 = u128_to_hex(t2);
        s.append(h2.as_str());
        proof {
            assert(s@ == spec_hex(t1 as nat) + "_"@ + spec_hex(t2 as nat));
        }
        s
    }

    /// Allocates and tracks a path for a fresh temporary file with the
    /// given suffix; fails exactly when the file limit is reached.  The
    /// caller creates the file on disk.
    pub fn create_temp_file(&mut self, suffix: &str) -> (r: Result<String, TranslationError>)
        ensures
            match r {
                Ok(p) => {
                    &&& old(self).tracked_files@.len() < old(self).config.max_temp_files
                    &&& is_managed_file_path(old(self).config, suffix@, p@)
                    &&& final(self).tracked_files@.len() == old(self).tracked_files@.len() + 1
                    &&& final(self).tracked_files@.last()@ == p@
                    &&& forall|k: int|
                        0 <= k < old(self).tracked_files@.len()
                            ==> final(self).tracked_files@[k] == old(self).tracked_files@[k]
                    &&& final(self).config == old(self).config
                    &&& final(self).tracked_dirs == old(self).tracked_dirs
                },
                Err(e) => {
                    &&& old(self).tracked_files@.len() >= old(self).config.max_temp_files
                    &&& e is TempFileManagement
                    &&& *final(self) == *old(self)
                },
            },
    {
        match self.check_file_limit() {
            Err(e) => Err(e),
            Ok(()) => {
                let id = self.generate_unique_id();
                let mut p = self.config.temp_dir.clone();
                p.append("/");
                p.append(self.config.file_prefix.as_str());
                p.append("_");
                p.append(id.as_str());
                p.append(".");
                p.append(suffix);
                self.tracked_files.push(p.clone());
                proof {
                    assert(is_managed_file_path(self.config, suffix@, p@)) by {
                        assert(is_unique_id(id@));
                        assert(p@ == self.config.temp_dir@ + "/"@ + self.config.file_prefix@
                            + "_"@ + id@ + "."@ + suffix@);
                    }
                }
                Ok(p)
            },
        }
    }

    /// Allocates and tracks a path for a fresh temporary file that the
    /// caller then fills with `content`; the path computation is as in
    /// `create_temp_file`.
    pub fn write_temp_file(&mut self, content: &str, suffix: &str) -> (r: Result<
        String,
        TranslationError,
    >)
        ensures
            match r {
                Ok(p) => {
                    &&& old(self).tracked_files@.len() < old(self).config.max_temp_files
                    &&& is_managed_file_path(old(self).config, suffix@, p@)
                    &&& final(self).tracked_files@.len() == old(self).tracked_files@.len() + 1
                    &&& final(self).tracked_files@.last()@ == p@
                    &&& forall|k: int|
                        0 <= k < old(self).tracked_files@.len()
                            ==> final(self).tracked_files@[k] == old(self).tracked_files@[k]
                    &&& final(self).config == old(self).config
                    &&& final(self).tracked_dirs == old(self).tracked_dirs
                },
                Err(e) => {
                    &&& old(self).tracked_files@.len() >= old(self).config.max_temp_files
                    &&& e is TempFileManagement
                    &&& *final(self) == *old(self)
                },
            },
    {
        let _ = content;
        self.create_temp_file(suffix)
    }

    /// Allocates and tracks a path for a temporary HTML file holding
    /// `content`.
    pub fn create_temp_html(&mut self, content: &str) -> (r: Result<String, TranslationError>)
        ensures
            match r {
                Ok(p) => {
                    &&& old(self).tracked_files@.len() < old(self).config.max_temp_files
                    &&& is_managed_file_path(old(self).config, "html"@, p@)
                    &&& final(self).tracked_files@.len() == old(self).tracked_files@.len() + 1
                    &&& final(self).tracked_files@.last()@ == p@
                    &&& forall|k: int|
                        0 <= k < old(self).tracked_files@.len()
                            ==> final(self).tracked_files@[k] == old(self).tracked_files@[k]
                    &&& final(self).config == old(self).config
                    &&& final(self).tracked_dirs == old(self).tracked_dirs
                },
                Err(e) => {
                    &&& old(self).tracked_files@.len() >= old(self).config.max_temp_files
                    &&& e is TempFileManagement
                    &&& *final(self) == *old(self)
                },
            },
    {
        proof {
            reveal_strlit("html");
        }
        self.write_temp_file(content, "html")
    }

    /// Allocates and tracks a path for a temporary directory with the
    /// given name.
    pub fn create_temp_dir(&mut self, name: &str) -> (r: String)
        ensures
            r@ == old(self).config.temp_dir@ + "/"@ + old(self).config.file_prefix@ + "_"@
                + name@,
            final(self).tracked_dirs@.len() == old(self).tracked_dirs@.len() + 1,
            final(self).tracked_dirs@.last()@ == r@,
            forall|k: int|
                0 <= k < old(self).tracked_dirs@.len()
                    ==> final(self).tracked_dirs@[k] == old(self).tracked_dirs@[k],
            final(self).config == old(self).config,
            final(self).tracked_files == old(self).tracked_files,
    {
        let mut p = self.config.temp_dir.clone();
        p.append("/");
        p.append(self.config.file_prefix.as_str());
        p.append("_");
        p.append(name);
        self.tracked_dirs.push(p.clone());
        p
    }

    /// Allocates and tracks a fresh working directory named
    /// `<prefix>_work_<id>` under the root directory.
    pub fn get_work_dir(&mut self) -> (r: String)
        ensures
            is_managed_work_dir_path(old(self).config, r@),
            final(self).tracked_dirs@.len() == old(self).tracked_dirs@.len() + 1,
            final(self).tracked_dirs@.last()@ == r@,
            forall|k: int|
                0 <= k < old(self).tracked_dirs@.len()
                    ==> final(self).tracked_dirs@[k] == old(self).tracked_dirs@[k],
            final(self).config == old(self).config,
            final(self).tracked_files == old(self).tracked_files,
    {
        let id = self.generate_unique_id();
        let mut name = String::from_str("work_");
        name.append(id.as_str());
        let r = self.create_temp_dir(name.as_str());
        proof {
            reveal_strlit("work_");
            assert(is_managed_work_dir_path(self.config, r@)) by {
                assert(is_unique_id(id@));
                assert(r@ == self.config.temp_dir@ + "/"@ + self.config.file_prefix@ + "_"@ + (
                "work_"@ + id@));
            }
        }
        r
    }

    /// The tracked file paths.
    pub fn list_temp_files<'a>(&'a self) -> (r: &'a Vec<String>)
        ensures
            r@ == self.tracked_files@,
    {
        &self.tracked_files
    }

    /// The tracked directory paths.
    pub fn list_temp_dirs<'a>(&'a self) -> (r: &'a Vec<String>)
        ensures
            r@ == self.tracked_dirs@,
    {
        &self.tracked_dirs
    }

    /// Forgets one tracked file, after its caller removed it from disk.
    pub fn untrack_file(&mut self, path: &str)
        ensures
            final(self).tracked_files@ == old(self).tracked_files@.filter(keeps_other_than(path@)),
            final(self).config == old(self).config,
            final(self).tracked_dirs == old(self).tracked_dirs,
    {
        let n: usize = self.tracked_files.len();
        let mut kept: Vec<String> = Vec::new();
        let mut i: usize = 0;
        proof {
            reveal(Seq::filter);
            assert(old(self).tracked_files@.take(0).filter(keeps_other_than(path@)) =~= kept@);
        }
        while i < n
            invariant
                0 <= i <= n,
                n == self.tracked_files@.len(),
                self.tracked_files@ == old(self).tracked_files@,
                self.config == old(self).config,
                self.tracked_dirs == old(self).tracked_dirs,
                kept@ == old(self).tracked_files@.take(i as int).filter(keeps_other_than(path@)),
            decreases n - i,
        {
            let keep = !crate::strutil::str_eq_str(self.tracked_files[i].as_str(), path);
            if keep {
                kept.push(self.tracked_files[i].clone());
            }
            proof {
                reveal(Seq::filter);
                let prefix = old(self).tracked_files@.take(i as int);
                assert(old(self).tracked_files@.take(i + 1) =~= prefix.push(
                    old(self).tracked_files@[i as int],
                ));
                assert(prefix.push(old(self).tracked_files@[i as int]).drop_last() =~= prefix);
                assert(prefix.push(old(self).tracked_files@[i as int]).last() == old(
                    self,
                ).tracked_files@[i as int]);
                assert(prefix.push(old(self).tracked_files@[i as int]).filter(
                    keeps_other_than(path@),
                ) =~= if old(self).tracked_files@[i as int]@ != path@ {
                    prefix.filter(keeps_other_than(path@)).push(
                        old(self).tracked_files@[i as int],
                    )
                } else {
                    prefix.filter(keeps_other_than(path@))
                });
            }
            i = i + 1;
        }
        proof {
            assert(old(self).tracked_files@.take(n as int) =~= old(self).tracked_files@);
        }
        self.tracked_files = kept;
    }

    /// Forgets one tracked directory, after its caller removed it.
    pub fn untrack_dir(&mut self, path: &str)
        ensures
            final(self).tracked_dirs@ == old(self).tracked_dirs@.filter(keeps_other_than(path@)),
            final(self).config == old(self).config,
            final(self).tracked_files == old(self).tracked_files,
    {
        let n: usize = self.tracked_dirs.len();
        let mut kept: Vec<String> = Vec::new();
        let mut i: usize = 0;
        proof {
            reveal(Seq::filter);
            assert(old(self).tracked_dirs@.take(0).filter(keeps_other_than(path@)) =~= kept@);
        }
        while i < n
            invariant
                0 <= i <= n,
                n == self.tracked_dirs@.len(),
                self.tracked_dirs@ == old(self).tracked_dirs@,
                self.config == old(self).config,
                self.tracked_files == old(self).tracked_files,
                kept@ == old(self).tracked_dirs@.take(i as int).filter(keeps_other_than(path@)),
            decreases n - i,
        {
            let keep = !crate::strutil::str_eq_str(self.tracked_dirs[i].as_str(), path);
            if keep {
                kept.push(self.tracked_dirs[i].clone());
            }
            proof {
                reveal(Seq::filter);
                let prefix = old(self).tracked_dirs@.take(i as int);
                assert(old(self).tracked_dirs@.take(i + 1) =~= prefix.push(
                    old(self).tracked_dirs@[i as int],
                ));
                assert(prefix.push(old(self).tracked_dirs@[i as int]).drop_last() =~= prefix);
                assert(prefix.push(old(self).tracked_dirs@[i as int]).last() == old(
                    self,
                ).tracked_dirs@[i as int]);
                assert(prefix.push(old(self).tracked_dirs@[i as int]).filter(
                    keeps_other_than(path@),
                ) =~= if old(self).tracked_dirs@[i as int]@ != path@ {
                    prefix.filter(keeps_other_than(path@)).push(old(self).tracked_dirs@[i as int])
                } else {
                    prefix.filter(keeps_other_than(path@))
                });
            }
            i = i + 1;
        }
        proof {
            assert(old(self).tracked_dirs@.take(n as int) =~= old(self).tracked_dirs@);
        }
        self.tracked_dirs = kept;
    }

    /// Forgets everything tracked, after its caller cleaned the disk.
    pub fn clear_tracked(&mut self)
        ensures
            final(self).tracked_files@.len() == 0,
            final(self).tracked_dirs@.len() == 0,
            final(self).config == old(self).config,
    {
        self.tracked_files.clear();
        self.tracked_dirs.clear();
    }
}

/// Allocates a path for a one-off temporary file with the given suffix,
/// under the default settings; the caller writes `content` to it.
pub fn create_temp_file_with_content(content: &str, suffix: &str) -> (r: Result<
    String,
    TranslationError,
>)
    ensures
        match r {
            Ok(p) => exists|id: Seq<char>|
                #[trigger] is_unique_id(id) && p@ == "/tmp/translation-cli"@ + "/"@ + "translate"@
                    + "_"@ + id + "."@ + suffix@,
            Err(_) => false,
        },
{
    let mut manager = TempManager::default();
    let r = manager.write_temp_file(content, suffix);
    proof {
        match &r {
            Ok(p) => {
                let id = choose|id: Seq<char>|
                    #[trigger] is_unique_id(id) && p@ == manager.config.temp_dir@ + "/"@
                        + manager.config.file_prefix@ + "_"@ + id + "."@ + suffix@;
                assert(is_unique_id(id) && p@ == "/tmp/translation-cli"@ + "/"@ + "translate"@
                    + "_"@ + id + "."@ + suffix@);
            },
            Err(_) => {},
        }
    }
    r
}

/// Allocates a path for a one-off working directory under the default
/// settings; the caller creates it on disk.
pub fn create_temp_work_dir() -> (r: String)
    ensures
        exists|id: Seq<char>|
            #[trigger] is_unique_id(id) && r@ == "/tmp/translation-cli"@ + "/"@ + "translate"@
                + "_"@ + ("work_"@ + id),
{
    let mut manager = TempManager::default();
    let r = manager.get_work_dir();
    proof {
        let id = choose|id: Seq<char>|
            #[trigger] is_unique_id(id) && r@ == manager.config.temp_dir@ + "/"@
                + manager.config.file_prefix@ + "_"@ + ("work_"@ + id);
        assert(is_unique_id(id) && r@ == "/tmp/translation-cli"@ + "/"@ + "translate"@ + "_"@ + (
        "work_"@ + id));
    }
    r
}

} // verus!
