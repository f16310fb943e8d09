//! The consent prompt for a batch, and the ordered steps that apply it.
use vstd::prelude::*;
use vstd::string::StringExecFns;
use crate::config::{
    PluginConfigView,
    DecodeError,
    config_entries,
    decodes_to,
    encode,
    lemma_entries_round_trip,
};
use crate::discovery::{
    UpdateCandidate,
    CandidateView,
    FoundView,
    UpdateInfo,
    batch_of,
    lemma_no_updates_empty_batch,
};
use crate::toml_table::toml_text;

verus! {

/// One list item of the prompt.
pub open spec fn item_text(name: Seq<char>) -> Seq<char> {
    "<li>"@ + name + "</li>"@
}

/// The list items of the prompt, one per candidate, separated by blank lines.
pub open spec fn items_text(b: Seq<CandidateView>) -> Seq<char>
    decreases b.len(),
{
    if b.len() == 0 {
        Seq::empty()
    } else if b.len() == 1 {
        item_text(b[0].plugin_name)
    } else {
        items_text(b.drop_last()) + "\n\n"@ + item_text(b.last().plugin_name)
    }
}

/// The one prompt that asks for the whole batch.
pub open spec fn consent_text(b: Seq<CandidateView>) -> Seq<char> {
    "Download the following updates?\n\n<ul style=\"max-height: 250px; overflow: hidden; overflow-y: scroll; text-align: left; display: inline-block;\">"@
        + items_text(b) + "</ul>"@
}

pub open spec fn batch_view(b: Seq<UpdateCandidate>) -> Seq<CandidateView> {
    b.map_values(|c: UpdateCandidate| c@)
}

/// The prompt that lists every candidate of the batch by name.
pub fn consent_message(batch: &Vec<UpdateCandidate>) -> (r: String)
    ensures
        r@ == consent_text(batch_view(batch@)),
{
    let ghost bv = batch_view(batch@);
    let mut out = "Download the following updates?\n\n<ul style=\"max-height: 250px; overflow: hidden; overflow-y: scroll; text-align: left; display: inline-block;\">".to_owned();
    let ghost head = out@;
    let mut i: usize = 0;
    while i < batch.len()
        invariant
            i <= batch@.len(),
            bv == batch_view(batch@),
            out@ == head + items_text(bv.take(i as int)),
        decreases batch@.len() - i,
    {
        proof {
            assert(bv.take(i + 1).drop_last() =~= bv.take(i as int));
            assert(bv.take(i + 1).last() == batch@[i as int]@);
        }
        if i > 0 {
            out.append("\n\n");
        }
        out.append("<li>");
        out.append(batch[i].plugin_name.as_str());
        out.append("</li>");
        proof {
            assert(out@ =~= head + items_text(bv.take(i + 1)));
        }
        i = i + 1;
    }
    out.append("</ul>");
    assert(bv.take(i as int) =~= bv);
    out
}

/// The prompt to show, or `None` where the batch is empty and there is
/// nothing to ask.
pub fn consent_prompt(batch: &Vec<UpdateCandidate>) -> (r: Option<String>)
    ensures
        batch@.len() == 0 ==> r is None,
        batch@.len() > 0 ==> (r matches Some(s) && s@ == consent_text(batch_view(batch@))),
{
    if batch.len() == 0 {
        None
    } else {
        Some(consent_message(batch))
    }
}

/// One thing to do while applying a batch.
#[derive(Clone, Debug, PartialEq, Eq)]
pub enum Step {
    /// Install the update of the candidate at this position of the batch.
    Install { candidate: usize },
    /// Overwrite the configuration file at `path` with `text`.
    WriteConfig { path: String, text: String },
    /// Restart the host application.
    Restart,
}

pub ghost enum StepView {
    Install(nat),
    WriteConfig(Seq<char>, Seq<char>),
    Restart,
}

impl View for Step {
    type V = StepView;

    open spec fn view(&self) -> StepView {
        match self {
            Step::Install { candidate } => StepView::Install(*candidate as nat),
            Step::WriteConfig { path, text } => StepView::WriteConfig(path@, text@),
            Step::Restart => StepView::Restart,
        }
    }
}

/// The configuration that a candidate commits: the one it was found with,
/// carrying the new version.
pub open spec fn committed_config(c: CandidateView) -> PluginConfigView {
    PluginConfigView { version: c.new_version, ..c.config }
}

pub open spec fn write_of(c: CandidateView) -> StepView {
    StepView::WriteConfig(c.config_path, toml_text(config_entries(committed_config(c))))
}

/// The steps for a batch: nothing where the user declined or there is
/// nothing to do; else every install, then every configuration rewrite, then
/// one restart.
pub open spec fn plan_of(b: Seq<CandidateView>, accepted: bool) -> Seq<StepView> {
    if !accepted || b.len() == 0 {
        Seq::empty()
    } else {
        Seq::new(b.len(), |i: int| StepView::Install(i as nat)) + Seq::new(
            b.len(),
            |i: int| write_of(b[i]),
        ) + seq![StepView::Restart]
    }
}

pub open spec fn steps_view(s: Seq<Step>) -> Seq<StepView> {
    s.map_values(|st: Step| st@)
}

/// The steps that apply `batch` after the user answered `accepted`.
pub fn plan_updates(batch: &Vec<UpdateCandidate>, accepted: bool) -> (r: Vec<Step>)
    ensures
        steps_view(r@) == plan_of(batch_view(batch@), accepted),
{
    let ghost bv = batch_view(batch@);
    let n = batch.len();
    if !accepted || n == 0 {
        return Vec::new();
    }
    let mut steps: Vec<Step> = Vec::new();
    let mut i: usize = 0;
    while i < n
        invariant
            n == batch@.len(),
            accepted,
            n > 0,
            i <= n,
            steps_view(steps@) =~= Seq::new(i as nat, |j: int| StepView::Install(j as nat)),
        decreases n - i,
    {
        let ghost prev = steps_view(steps@);
        steps.push(Step::Install { candidate: i });
        assert(steps_view(steps@) =~= prev.push(StepView::Install(i as nat)));
        i = i + 1;
    }
    let mut k: usize = 0;
    while k < n
        invariant
            n == batch@.len(),
            accepted,
            n > 0,
            k <= n,
            bv == batch_view(batch@),
            steps_view(steps@) =~= Seq::new(n as nat, |j: int| StepView::Install(j as nat))
                + Seq::new(k as nat, |j: int| write_of(bv[j])),
        decreases n - k,
    {
        let c = &batch[k];
        let updated = c.config.with_version(c.new_version.clone());
        let text = encode(&updated);
        let ghost prev = steps_view(steps@);
        assert(updated@ == committed_config(bv[k as int]));
        steps.push(Step::WriteConfig { path: c.config_path.clone(), text });
        assert(steps_view(steps@) =~= prev.push(write_of(bv[k as int])));
        k = k + 1;
    }
    let ghost prev = steps_view(steps@);
    steps.push(Step::Restart);
    assert(steps_view(steps@) =~= prev.push(StepView::Restart));
    assert(steps_view(steps@) =~= plan_of(bv, accepted));
    steps
}

/// Every install of a plan comes before every configuration rewrite, and a
/// restart comes only as the last step.
pub proof fn lemma_installs_precede_writes(b: Seq<CandidateView>, accepted: bool)
    ensures
        forall|i: int, j: int|
            0 <= i < j < plan_of(b, accepted).len() && #[trigger] plan_of(b, accepted)[i] is WriteConfig
                ==> !(#[trigger] plan_of(b, accepted)[j] is Install),
        forall|i: int|
            0 <= i < plan_of(b, accepted).len() && #[trigger] plan_of(b, accepted)[i] is Restart
                ==> i == plan_of(b, accepted).len() - 1,
{
}

/// A declined batch has no steps: nothing is installed and no configuration
/// is rewritten.
pub proof fn lemma_decline_changes_nothing(b: Seq<CandidateView>)
    ensures
        plan_of(b, false).len() == 0,
{
}

/// A rewrite step writes to the candidate's own configuration file the TOML
/// text of a configuration that keeps the old name and server address and
/// carries the reported version; reading that table back gives exactly the
/// committed configuration.
pub proof fn lemma_commit_changes_version_only(
    b: Seq<CandidateView>,
    k: int,
    read_back: Result<PluginConfigView, DecodeError>,
)
    requires
        0 <= k < plan_of(b, true).len(),
        plan_of(b, true)[k] is WriteConfig,
        k >= b.len() ==> decodes_to(config_entries(committed_config(b[k - b.len()])), read_back),
    ensures
        ({
            let i = k - b.len();
            let v = committed_config(b[i]);
            &&& 0 <= i < b.len()
            &&& plan_of(b, true)[k] == StepView::WriteConfig(
                b[i].config_path,
                toml_text(config_entries(v)),
            )
            &&& v.name == b[i].config.name
            &&& v.server_ip == b[i].config.server_ip
            &&& v.version == b[i].new_version
            &&& read_back == Ok::<PluginConfigView, DecodeError>(v)
        }),
{
    let i = k - b.len();
    lemma_entries_round_trip(committed_config(b[i]), read_back);
}

/// Where no server reports a newer version, the batch is empty and its plan,
/// whatever the answer, rewrites no file, installs nothing and restarts
/// nothing.
pub proof fn lemma_no_updates_no_steps(
    found: Seq<FoundView>,
    replies: Seq<Option<UpdateInfo>>,
    accepted: bool,
)
    requires
        found.len() == replies.len(),
        forall|i: int| 0 <= i < replies.len() ==> #[trigger] replies[i] is None,
    ensures
        batch_of(found, replies).len() == 0,
        plan_of(batch_of(found, replies), accepted).len() == 0,
{
    lemma_no_updates_empty_batch(found, replies);
}

/// A plan that applies a batch restarts the host exactly once.
pub proof fn lemma_single_restart(b: Seq<CandidateView>)
    requires
        b.len() > 0,
    ensures
        plan_of(b, true).last() == StepView::Restart,
        forall|i: int| 0 <= i < plan_of(b, true).len() - 1 ==> !(#[trigger] plan_of(b, true)[i] is Restart),
{
}

} // verus!
