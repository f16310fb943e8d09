//! Discovery: reading the configuration directory into decoded records, and
//! pairing them with what the update servers reported into a batch.
use vstd::prelude::*;
use crate::address::ServerAddress;
use crate::config::{
    PluginConfig,
    PluginConfigView,
    DecodeError,
    decode,
    result_view,
    text_decodes_to,
};

verus! {

/// One entry of the configuration directory, as read from storage:
/// `contents` is `None` where the file could not be read as text.
pub struct DirEntry {
    pub path: String,
    pub is_dir: bool,
    pub contents: Option<String>,
}

/// A configuration that was decoded, with the file it came from.
#[derive(Clone, Debug)]
pub struct FoundConfig {
    pub path: String,
    pub config: PluginConfig,
}

pub ghost struct FoundView {
    pub path: Seq<char>,
    pub config: PluginConfigView,
}

impl View for FoundConfig {
    type V = FoundView;

    open spec fn view(&self) -> FoundView {
        FoundView { path: self.path@, config: self.config@ }
    }
}

/// Why a file of the configuration directory contributed nothing.
#[derive(Clone, Copy, Debug, PartialEq, Eq)]
pub enum SkipReason {
    /// The file could not be read as text.
    Unreadable,
    /// The file does not hold a configuration.
    Malformed(DecodeError),
}

/// A file that discovery skipped, and why.
#[derive(Clone, Debug)]
pub struct SkippedFile {
    pub path: String,
    pub reason: SkipReason,
}

impl View for SkippedFile {
    type V = (Seq<char>, SkipReason);

    open spec fn view(&self) -> (Seq<char>, SkipReason) {
        (self.path@, self.reason)
    }
}

/// What an update server reported for a plugin that has a newer version.
pub struct UpdateInfo {
    pub plugin_name: String,
    pub new_version: String,
}

/// A pending update: the server's report, and the configuration it updates.
#[derive(Clone, Debug)]
pub struct UpdateCandidate {
    /// Position, among the decoded configurations, of the one this updates.
    pub source: usize,
    pub plugin_name: String,
    pub new_version: String,
    pub config_path: String,
    pub server_ip: ServerAddress,
    pub config: PluginConfig,
}

pub ghost struct CandidateView {
    pub source: nat,
    pub plugin_name: Seq<char>,
    pub new_version: Seq<char>,
    pub config_path: Seq<char>,
    pub server_ip: ServerAddress,
    pub config: PluginConfigView,
}

impl View for UpdateCandidate {
    type V = CandidateView;

    open spec fn view(&self) -> CandidateView {
        CandidateView {
            source: self.source as nat,
            plugin_name: self.plugin_name@,
            new_version: self.new_version@,
            config_path: self.config_path@,
            server_ip: self.server_ip,
            config: self.config@,
        }
    }
}

/// `out` is a result that reading entry `e` may give; entries that are not
/// decoded (directories, unreadable files) admit any.
pub open spec fn outcome_fits(e: DirEntry, out: Result<PluginConfigView, DecodeError>) -> bool {
    e.is_dir || e.contents is None || text_decodes_to(e.contents->0@, out)
}

/// One outcome of reading for each entry.
pub open spec fn outcomes_fit(
    es: Seq<DirEntry>,
    outs: Seq<Result<PluginConfigView, DecodeError>>,
) -> bool {
    &&& outs.len() == es.len()
    &&& forall|i: int| 0 <= i < es.len() ==> outcome_fits(#[trigger] es[i], outs[i])
}

/// Why a file entry is skipped, given what reading it gave, if it is.
pub open spec fn entry_skip(e: DirEntry, out: Result<PluginConfigView, DecodeError>) -> Option<
    (Seq<char>, SkipReason),
> {
    if e.is_dir {
        None
    } else if e.contents is None {
        Some((e.path@, SkipReason::Unreadable))
    } else {
        match out {
            Ok(_) => None,
            Err(err) => Some((e.path@, SkipReason::Malformed(err))),
        }
    }
}

/// The files that discovery skips, in the entries' order.
pub open spec fn skipped_files(
    es: Seq<DirEntry>,
    outs: Seq<Result<PluginConfigView, DecodeError>>,
) -> Seq<(Seq<char>, SkipReason)>
    decreases es.len(),
{
    if es.len() == 0 || outs.len() == 0 {
        Seq::empty()
    } else {
        let prev = skipped_files(es.drop_last(), outs.drop_last());
        match entry_skip(es.last(), outs.last()) {
            Some(f) => prev.push(f),
            None => prev,
        }
    }
}

/// What one entry contributes, given what reading it gave: a decoded
/// configuration, or nothing for a directory, an unreadable file or a
/// malformed one.
pub open spec fn entry_config(e: DirEntry, out: Result<PluginConfigView, DecodeError>) -> Option<
    FoundView,
> {
    if e.is_dir || e.contents is None {
        None
    } else {
        match out {
            Ok(c) => Some(FoundView { path: e.path@, config: c }),
            Err(_) => None,
        }
    }
}

/// The configurations that the entries hold, in the entries' order.
pub open spec fn found_configs(
    es: Seq<DirEntry>,
    outs: Seq<Result<PluginConfigView, DecodeError>>,
) -> Seq<FoundView>
    decreases es.len(),
{
    if es.len() == 0 || outs.len() == 0 {
        Seq::empty()
    } else {
        let prev = found_configs(es.drop_last(), outs.drop_last());
        match entry_config(es.last(), outs.last()) {
            Some(f) => prev.push(f),
            None => prev,
        }
    }
}

/// The candidate that configuration `i` gives where its server reported `u`.
pub open spec fn candidate_of(i: nat, f: FoundView, u: UpdateInfo) -> CandidateView {
    CandidateView {
        source: i,
        plugin_name: u.plugin_name@,
        new_version: u.new_version@,
        config_path: f.path,
        server_ip: f.config.server_ip,
        config: f.config,
    }
}

/// The batch: one candidate for each configuration whose server reported a
/// newer version, in the configurations' order.
pub open spec fn batch_of(found: Seq<FoundView>, replies: Seq<Option<UpdateInfo>>) -> Seq<
    CandidateView,
>
    decreases found.len(),
{
    if found.len() == 0 || replies.len() == 0 {
        Seq::empty()
    } else {
        let n = (found.len() - 1) as nat;
        let prev = batch_of(found.drop_last(), replies.take(n as int));
        match replies[n as int] {
            Some(u) => prev.push(candidate_of(n, found.last(), u)),
            None => prev,
        }
    }
}

/// An empty directory holds no configuration, and no configuration gives an
/// empty batch.
pub proof fn lemma_empty_directory()
    ensures
        found_configs(Seq::<DirEntry>::empty(), Seq::empty()) == Seq::<FoundView>::empty(),
        batch_of(Seq::<FoundView>::empty(), Seq::<Option<UpdateInfo>>::empty()) == Seq::<
            CandidateView,
        >::empty(),
{
}

/// Where no server reports a newer version, the batch is empty.
pub proof fn lemma_no_updates_empty_batch(found: Seq<FoundView>, replies: Seq<Option<UpdateInfo>>)
    requires
        found.len() == replies.len(),
        forall|i: int| 0 <= i < replies.len() ==> #[trigger] replies[i] is None,
    ensures
        batch_of(found, replies) == Seq::<CandidateView>::empty(),
    decreases found.len(),
{
    if found.len() > 0 {
        let n = found.len() - 1;
        lemma_no_updates_empty_batch(found.drop_last(), replies.take(n));
    }
}

/// What one pass over the configuration directory found: the decoded
/// configurations, and the files skipped with the reason.
pub struct Scan {
    pub found: Vec<FoundConfig>,
    pub skipped: Vec<SkippedFile>,
}

/// Decodes every file of the configuration directory, once. Directories,
/// files that could not be read and files that do not decode are skipped,
/// and the files among them are listed with the reason; one bad file does
/// not stop the others.
pub fn scan_directory(entries: &Vec<DirEntry>) -> (r: Scan)
    ensures
        exists|outs: Seq<Result<PluginConfigView, DecodeError>>|
            {
                &&& outcomes_fit(entries@, outs)
                &&& r.found@.map_values(|f: FoundConfig| f@) == found_configs(entries@, outs)
                &&& r.skipped@.map_values(|f: SkippedFile| f@) == skipped_files(entries@, outs)
            },
{
    let mut found: Vec<FoundConfig> = Vec::new();
    let mut skipped: Vec<SkippedFile> = Vec::new();
    let ghost mut outs: Seq<Result<PluginConfigView, DecodeError>> = Seq::empty();
    let mut i: usize = 0;
    while i < entries.len()
        invariant
            i <= entries@.len(),
            outcomes_fit(entries@.take(i as int), outs),
            found@.map_values(|f: FoundConfig| f@) == found_configs(entries@.take(i as int), outs),
            skipped@.map_values(|f: SkippedFile| f@) == skipped_files(
                entries@.take(i as int),
                outs,
            ),
        decreases entries@.len() - i,
    {
        let e = &entries[i];
        let ghost prev_outs = outs;
        let ghost mut out = Err::<PluginConfigView, DecodeError>(DecodeError::Syntax);
        proof {
            assert(entries@.take(i + 1).drop_last() =~= entries@.take(i as int));
            assert(entries@.take(i + 1).last() == *e);
        }
        if !e.is_dir {
            match &e.contents {
                None => {
                    skipped.push(SkippedFile { path: e.path.clone(), reason: SkipReason::Unreadable });
                },
                Some(text) => {
                    let d = decode(text.as_str());
                    proof {
                        out = result_view(d);
                    }
                    match d {
                        Ok(c) => {
                            found.push(FoundConfig { path: e.path.clone(), config: c });
                        },
                        Err(err) => {
                            skipped.push(
                                SkippedFile { path: e.path.clone(), reason: SkipReason::Malformed(err) },
                            );
                        },
                    }
                },
            }
        }
        proof {
            outs = prev_outs.push(out);
            assert(outs.drop_last() =~= prev_outs);
            assert forall|j: int| 0 <= j < i + 1 implies outcome_fits(
                #[trigger] entries@.take(i + 1)[j],
                outs[j],
            ) by {
                if j < i {
                    assert(entries@.take(i + 1)[j] == entries@.take(i as int)[j]);
                }
            }
            assert(found@.map_values(|f: FoundConfig| f@) =~= found_configs(entries@.take(i + 1), outs));
            assert(skipped@.map_values(|f: SkippedFile| f@) =~= skipped_files(
                entries@.take(i + 1),
                outs,
            ));
        }
        i = i + 1;
    }
    assert(entries@.take(entries@.len() as int) =~= entries@);
    Scan { found, skipped }
}

/// The configurations that the directory holds; see `scan_directory`.
pub fn scan_entries(entries: &Vec<DirEntry>) -> (r: Vec<FoundConfig>)
    ensures
        exists|outs: Seq<Result<PluginConfigView, DecodeError>>|
            outcomes_fit(entries@, outs) && r@.map_values(|f: FoundConfig| f@) == found_configs(
                entries@,
                outs,
            ),
{
    scan_directory(entries).found
}

/// Pairs each decoded configuration with its server's reply (`replies[i]`
/// for `found[i]`) and keeps those with a newer version.
pub fn build_batch(found: &Vec<FoundConfig>, replies: &Vec<Option<UpdateInfo>>) -> (r: Vec<
    UpdateCandidate,
>)
    requires
        found@.len() == replies@.len(),
    ensures
        r@.map_values(|c: UpdateCandidate| c@) == batch_of(
            found@.map_values(|f: FoundConfig| f@),
            replies@,
        ),
{
    let ghost fv = found@.map_values(|f: FoundConfig| f@);
    let mut r: Vec<UpdateCandidate> = Vec::new();
    let mut i: usize = 0;
    while i < found.len()
        invariant
            i <= found@.len(),
            found@.len() == replies@.len(),
            fv == found@.map_values(|f: FoundConfig| f@),
            r@.map_values(|c: UpdateCandidate| c@) == batch_of(
                fv.take(i as int),
                replies@.take(i as int),
            ),
        decreases found@.len() - i,
    {
        proof {
            assert(fv.take(i + 1).drop_last() =~= fv.take(i as int));
            assert(replies@.take(i + 1).take(i as int) =~= replies@.take(i as int));
            assert(fv.take(i + 1).last() == found@[i as int]@);
            assert(replies@.take(i + 1)[i as int] == replies@[i as int]);
        }
        match &replies[i] {
            Some(u) => {
                let f = &found[i];
                let config = PluginConfig {
                    name: f.config.name.clone(),
                    version: f.config.version.clone(),
                    server_ip: f.config.server_ip,
                };
                let c = UpdateCandidate {
                    source: i,
                    plugin_name: u.plugin_name.clone(),
                    new_version: u.new_version.clone(),
                    config_path: f.path.clone(),
                    server_ip: f.config.server_ip,
                    config,
                };
                r.push(c);
                proof {
                    assert(r@.map_values(|c: UpdateCandidate| c@) =~= batch_of(
                        fv.take(i + 1),
                        replies@.take(i + 1),
                    ));
                }
            },
            None => {},
        }
        i = i + 1;
    }
    assert(fv.take(i as int) =~= fv);
    assert(replies@.take(i as int) =~= replies@);
    r
}

} // verus!
