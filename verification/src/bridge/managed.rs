//! A managed session: one connection to a remote bridge, from its handshake to its
//! end.
//!
//! Whoever runs the connection tells what happened to it and performs, in order,
//! what is said here. However a session ends, its end is reported once and its
//! inbound slot is given back once.
use vstd::prelude::*;

use crate::bridge::config::PeerConfig;
use crate::bridge::peers;
use crate::bridge::peers::{Dial, ManagerModel, PeerManager, SessionOutcome};
use crate::text;

verus! {

/// Where a session stands.
#[derive(Debug)]
pub enum SessionStage {
    /// The handshake is under way.
    Handshaking,
    /// The session is the active one of the remote bridge, under this number.
    Active { remote_id: String, entry_id: u64 },
    /// The session has ended.
    Done,
}

/// Where a session stands, mathematically.
#[verifier::ext_equal]
pub enum StageModel {
    Handshaking,
    Active { remote_id: Seq<char>, entry_id: u64 },
    Done,
}

impl View for SessionStage {
    type V = StageModel;

    open spec fn view(&self) -> StageModel {
        match *self {
            SessionStage::Handshaking => StageModel::Handshaking,
            SessionStage::Active { remote_id, entry_id } => StageModel::Active {
                remote_id: remote_id@,
                entry_id,
            },
            SessionStage::Done => StageModel::Done,
        }
    }
}

/// What happened to the connection of a session.
#[derive(Debug)]
pub enum SessionNews {
    /// The handshake is complete, and the peer is this bridge.
    Identified { bridge_id: String },
    /// The connection is over: the handshake failed, or the session ran to its end.
    Over,
}

/// What happened to a connection, mathematically.
#[verifier::ext_equal]
pub enum NewsModel {
    Identified { bridge_id: Seq<char> },
    Over,
}

impl View for SessionNews {
    type V = NewsModel;

    open spec fn view(&self) -> NewsModel {
        match *self {
            SessionNews::Identified { bridge_id } => NewsModel::Identified {
                bridge_id: bridge_id@,
            },
            SessionNews::Over => NewsModel::Over,
        }
    }
}

/// What is to be done for a session.
#[derive(Debug)]
pub enum SessionAction {
    /// Cancel the session with this number, which this one replaces.
    Cancel { entry_id: u64 },
    /// Close the connection as a duplicate.
    CloseDuplicate,
    /// Report that a configured peer is connected.
    ReportConnected { config_key: String },
    /// Run the session, with or without a replay of the params.
    Run { replay: bool },
    /// Dial a configured peer.
    Dial(Dial),
    /// Report that the session has ended.
    ReportEnded { config_key: Option<String> },
    /// Give the inbound slot back.
    ReleaseSlot,
}

/// What is to be done, mathematically.
#[verifier::ext_equal]
pub enum ActionModel {
    Cancel { entry_id: u64 },
    CloseDuplicate,
    ReportConnected { config_key: Seq<char> },
    Run { replay: bool },
    Dial { config: int, attempt: u32 },
    ReportEnded { config_key: Option<Seq<char>> },
    ReleaseSlot,
}

impl View for SessionAction {
    type V = ActionModel;

    open spec fn view(&self) -> ActionModel {
        match *self {
            SessionAction::Cancel { entry_id } => ActionModel::Cancel { entry_id },
            SessionAction::CloseDuplicate => ActionModel::CloseDuplicate,
            SessionAction::ReportConnected { config_key } => ActionModel::ReportConnected {
                config_key: config_key@,
            },
            SessionAction::Run { replay } => ActionModel::Run { replay },
            SessionAction::Dial(dial) => ActionModel::Dial {
                config: dial.config as int,
                attempt: dial.attempt,
            },
            SessionAction::ReportEnded { config_key } => ActionModel::ReportEnded {
                config_key: text::opt_view(config_key),
            },
            SessionAction::ReleaseSlot => ActionModel::ReleaseSlot,
        }
    }
}

/// What each action of a list is.
pub open spec fn action_views(s: Seq<SessionAction>) -> Seq<ActionModel> {
    s.map_values(|a: SessionAction| a@)
}

// ---------------------------------------------------------------------------
// Steps
// ---------------------------------------------------------------------------

/// What never changes about a session and its bridge.
pub struct Setting {
    /// The id of this bridge.
    pub local_id: Seq<char>,
    /// The configured peers.
    pub configs: Seq<PeerConfig>,
    /// Whether the connection came from the peer.
    pub is_inbound: bool,
    /// The key of the configured peer that was dialled.
    pub key: Option<Seq<char>>,
}

/// What the end of a session calls for: its report, then the inbound slot.
pub open spec fn ending(t: Setting) -> Seq<ActionModel> {
    if t.is_inbound {
        seq![ActionModel::ReportEnded { config_key: t.key }, ActionModel::ReleaseSlot]
    } else {
        seq![ActionModel::ReportEnded { config_key: t.key }]
    }
}

/// What the start of a session calls for: the report for a configured peer, then the
/// session itself.
pub open spec fn starting(t: Setting) -> Seq<ActionModel> {
    let run = ActionModel::Run { replay: peers::replays_params(t.configs, t.key) };
    match t.key {
        Some(k) => seq![ActionModel::ReportConnected { config_key: k }, run],
        None => seq![run],
    }
}

/// The stage after news.
pub open spec fn stage_after(
    m: ManagerModel,
    t: Setting,
    stage: StageModel,
    news: NewsModel,
) -> StageModel {
    match (stage, news) {
        (StageModel::Handshaking, NewsModel::Identified { bridge_id }) => {
            if peers::registered_outcome(m, t.local_id, bridge_id, t.is_inbound) is Rejected {
                StageModel::Done
            } else {
                StageModel::Active { remote_id: bridge_id, entry_id: m.next_entry_id }
            }
        },
        (_, NewsModel::Over) => StageModel::Done,
        _ => stage,
    }
}

/// The state of the manager after news.
pub open spec fn manager_after(
    m: ManagerModel,
    t: Setting,
    stage: StageModel,
    news: NewsModel,
) -> ManagerModel {
    match (stage, news) {
        (StageModel::Handshaking, NewsModel::Identified { bridge_id }) => peers::registered(
            m,
            t.local_id,
            bridge_id,
            t.is_inbound,
            t.key,
        ),
        (StageModel::Active { remote_id, entry_id }, NewsModel::Over) => peers::finished(
            m,
            remote_id,
            entry_id,
            t.is_inbound,
        ),
        _ => m,
    }
}

/// What news call for.
pub open spec fn actions_for(
    m: ManagerModel,
    t: Setting,
    stage: StageModel,
    news: NewsModel,
) -> Seq<ActionModel> {
    match (stage, news) {
        (StageModel::Handshaking, NewsModel::Over) => ending(t),
        (StageModel::Handshaking, NewsModel::Identified { bridge_id }) => {
            match peers::registered_outcome(m, t.local_id, bridge_id, t.is_inbound) {
                SessionOutcome::Admitted => starting(t),
                SessionOutcome::Replaced { entry_id, is_inbound: _ } => seq![
                    ActionModel::Cancel { entry_id },
                ] + starting(t),
                SessionOutcome::Rejected => seq![ActionModel::CloseDuplicate] + ending(t),
            }
        },
        (StageModel::Active { remote_id, entry_id }, NewsModel::Over) => {
            match peers::resumed(m, t.configs, remote_id, entry_id, t.is_inbound) {
                Some(config) => seq![ActionModel::Dial { config, attempt: 0 }] + ending(t),
                None => ending(t),
            }
        },
        _ => Seq::empty(),
    }
}

/// The setting of a session.
pub open spec fn setting(m: &PeerManager, is_inbound: bool, key: Option<String>) -> Setting {
    Setting { local_id: m.id(), configs: m.configs(), is_inbound, key: text::opt_view(key) }
}

fn push_ending(actions: &mut Vec<SessionAction>, is_inbound: bool, key: &Option<String>)
    ensures
        forall|t: Setting|
            t.is_inbound == is_inbound && t.key == text::opt_view(*key) ==> action_views(
                final(actions)@,
            ) == action_views(old(actions)@) + #[trigger] ending(t),
{
    let ghost earlier = action_views(actions@);
    actions.push(SessionAction::ReportEnded { config_key: text::clone_opt(key) });
    if is_inbound {
        actions.push(SessionAction::ReleaseSlot);
    }
    assert forall|t: Setting|
        t.is_inbound == is_inbound && t.key == text::opt_view(*key) implies action_views(actions@)
        == earlier + #[trigger] ending(t) by {
        assert(action_views(actions@) =~= earlier + ending(t));
    }
}

/// Takes news of a session into account. Gives back the stage that it is in from then
/// on, and what is to be done, in order.
pub fn session_step(
    m: &mut PeerManager,
    stage: SessionStage,
    news: SessionNews,
    is_inbound: bool,
    key: &Option<String>,
) -> (r: (SessionStage, Vec<SessionAction>))
    requires
        stage is Handshaking && news is Identified ==> old(m)@.next_entry_id < u64::MAX,
    ensures
        r.0@ == stage_after(old(m)@, setting(old(m), is_inbound, *key), stage@, news@),
        action_views(r.1@) == actions_for(
            old(m)@,
            setting(old(m), is_inbound, *key),
            stage@,
            news@,
        ),
        final(m)@ == manager_after(old(m)@, setting(old(m), is_inbound, *key), stage@, news@),
        final(m).id() == old(m).id(),
        final(m).configs() == old(m).configs(),
        peers::entries_fresh(old(m)@) ==> peers::entries_fresh(final(m)@),
{
    let ghost t = setting(m, is_inbound, *key);
    let ghost start = m@;
    let ghost from = stage@;
    let ghost told = news@;
    let mut actions: Vec<SessionAction> = Vec::new();
    assert(action_views(actions@) =~= Seq::empty());
    match (stage, news) {
        (SessionStage::Handshaking, SessionNews::Over) => {
            push_ending(&mut actions, is_inbound, key);
            assert(action_views(actions@) =~= ending(t));
            (SessionStage::Done, actions)
        },
        (SessionStage::Handshaking, SessionNews::Identified { bridge_id }) => {
            let (number, outcome) = m.register(
                bridge_id.as_str(),
                is_inbound,
                text::clone_opt(key),
            );
            match outcome {
                SessionOutcome::Rejected => {
                    actions.push(SessionAction::CloseDuplicate);
                    assert(action_views(actions@) =~= seq![ActionModel::CloseDuplicate]);
                    push_ending(&mut actions, is_inbound, key);
                    return (SessionStage::Done, actions);
                },
                SessionOutcome::Replaced { entry_id, is_inbound: _ } => {
                    actions.push(SessionAction::Cancel { entry_id });
                },
                SessionOutcome::Admitted => {},
            }
            let ghost earlier = action_views(actions@);
            if let Some(k) = key {
                actions.push(SessionAction::ReportConnected { config_key: k.clone() });
            }
            let replay = m.should_replay_params(key);
            actions.push(SessionAction::Run { replay });
            assert(action_views(actions@) =~= earlier + starting(t));
            assert(action_views(actions@) =~= actions_for(start, t, from, told));
            (SessionStage::Active { remote_id: bridge_id, entry_id: number }, actions)
        },
        (SessionStage::Active { remote_id, entry_id }, SessionNews::Over) => {
            if let Some(dial) = m.session_finished(remote_id.as_str(), entry_id, is_inbound) {
                actions.push(SessionAction::Dial(dial));
            }
            push_ending(&mut actions, is_inbound, key);
            assert(action_views(actions@) =~= actions_for(start, t, from, told));
            (SessionStage::Done, actions)
        },
        (SessionStage::Active { remote_id, entry_id }, SessionNews::Identified { bridge_id: _ }) => {
            (SessionStage::Active { remote_id, entry_id }, actions)
        },
        (SessionStage::Done, _) => (SessionStage::Done, actions),
    }
}

// ---------------------------------------------------------------------------
// Laws
// ---------------------------------------------------------------------------

/// News of a session, with the state of the manager in which they came: other
/// sessions change it meanwhile.
pub struct Moment {
    pub manager: ManagerModel,
    pub news: NewsModel,
}

/// The stage of a session after all that happened to it.
pub open spec fn stage_of_run(t: Setting, run: Seq<Moment>) -> StageModel
    decreases run.len(),
{
    if run.len() == 0 {
        StageModel::Handshaking
    } else {
        stage_after(run.last().manager, t, stage_of_run(t, run.drop_last()), run.last().news)
    }
}

/// All that was done for a session, in order.
pub open spec fn actions_of_run(t: Setting, run: Seq<Moment>) -> Seq<ActionModel>
    decreases run.len(),
{
    if run.len() == 0 {
        Seq::empty()
    } else {
        actions_of_run(t, run.drop_last()) + actions_for(
            run.last().manager,
            t,
            stage_of_run(t, run.drop_last()),
            run.last().news,
        )
    }
}

/// Whether an action belongs to the end of a session.
pub open spec fn is_end(a: ActionModel) -> bool {
    a is ReportEnded || a is ReleaseSlot
}

/// Whether none of the actions belongs to the end of a session.
pub open spec fn none_ends(s: Seq<ActionModel>) -> bool {
    forall|i: int| 0 <= i < s.len() ==> !is_end(#[trigger] s[i])
}

/// Whatever happens to a session: as long as it has not ended, neither its end is
/// reported nor its slot given back. Once it has ended, the last that was done is
/// to report its end and, if it is inbound, to give its slot back, once each.
pub proof fn law_session_ends_once(t: Setting, run: Seq<Moment>)
    ensures
        !(stage_of_run(t, run) is Done) ==> none_ends(actions_of_run(t, run)),
        stage_of_run(t, run) is Done ==> ({
            let done = actions_of_run(t, run);
            let n = done.len() - ending(t).len();
            &&& n >= 0
            &&& none_ends(done.take(n))
            &&& done.skip(n) == ending(t)
        }),
    decreases run.len(),
{
    if run.len() > 0 {
        let init = run.drop_last();
        law_session_ends_once(t, init);
        let m = run.last().manager;
        let stage = stage_of_run(t, init);
        let earlier = actions_of_run(t, init);
        let new = actions_for(m, t, stage, run.last().news);
        let done = actions_of_run(t, run);
        assert(done == earlier + new);
        if stage is Done {
            assert(done =~= earlier);
        } else if stage_of_run(t, run) is Done {
            let e = ending(t);
            let n = done.len() - e.len();
            let head = new.take(new.len() - e.len());
            assert(new.len() >= e.len() && new.skip(new.len() - e.len()) =~= e && none_ends(head));
            assert(done.take(n) =~= earlier + head);
            assert(done.skip(n) =~= e);
        } else {
            assert(none_ends(new));
        }
    }
}

/// A configured peer is reported as connected at most once, a session runs at most
/// once, and neither comes after the report of its end.
pub proof fn law_nothing_follows_the_end(t: Setting, run: Seq<Moment>, i: int, j: int)
    requires
        0 <= i < j < actions_of_run(t, run).len(),
    ensures
        is_end(actions_of_run(t, run)[i]) ==> actions_of_run(t, run)[j] is ReleaseSlot,
        actions_of_run(t, run)[i] is ReportConnected ==> !(actions_of_run(
            t,
            run,
        )[j] is ReportConnected),
        actions_of_run(t, run)[i] is Run ==> !(actions_of_run(t, run)[j] is Run) && !(
        actions_of_run(t, run)[j] is ReportConnected),
{
    law_session_ends_once(t, run);
    lemma_starts_once(t, run);
    let done = actions_of_run(t, run);
    if is_end(done[i]) {
        let n = done.len() - ending(t).len();
        if stage_of_run(t, run) is Done {
            if i < n {
                assert(done.take(n)[i] == done[i]);
            }
            assert(done.skip(n)[j - n] == done[j]);
            assert(done.skip(n)[i - n] == done[i]);
        }
    }
}

/// A session that has ended is no longer the active one of its bridge.
pub proof fn law_ended_session_is_not_active(
    m: ManagerModel,
    t: Setting,
    remote_id: Seq<char>,
    entry_id: u64,
)
    ensures
        !peers::is_current(
            manager_after(
                m,
                t,
                StageModel::Active { remote_id, entry_id },
                NewsModel::Over,
            ),
            remote_id,
            entry_id,
        ),
{
}

/// Whether an action belongs to the start of a session.
spec fn is_start(a: ActionModel) -> bool {
    a is ReportConnected || a is Run
}

proof fn lemma_starts_once(t: Setting, run: Seq<Moment>)
    ensures
        stage_of_run(t, run) is Handshaking ==> actions_of_run(t, run).len() == 0,
        forall|i: int, j: int|
            0 <= i < j < actions_of_run(t, run).len() && is_start(#[trigger] actions_of_run(t, run)[i])
                && is_start(#[trigger] actions_of_run(t, run)[j]) ==> actions_of_run(
                t,
                run,
            )[i] is ReportConnected && actions_of_run(t, run)[j] is Run,
    decreases run.len(),
{
    if run.len() > 0 {
        let init = run.drop_last();
        lemma_starts_once(t, init);
        let stage = stage_of_run(t, init);
        let earlier = actions_of_run(t, init);
        let new = actions_for(run.last().manager, t, stage, run.last().news);
        let done = actions_of_run(t, run);
        assert(done == earlier + new);
        if stage is Handshaking {
            assert(done =~= new);
        } else {
            assert forall|j: int| 0 <= j < new.len() implies !is_start(#[trigger] new[j]) by {}
            assert forall|i: int, j: int|
                0 <= i < j < done.len() && is_start(#[trigger] done[i]) && is_start(
                    #[trigger] done[j],
                ) implies done[i] is ReportConnected && done[j] is Run by {
                if j < earlier.len() {
                    assert(earlier[i] == done[i] && earlier[j] == done[j]);
                } else {
                    assert(new[j - earlier.len()] == done[j]);
                }
            }
        }
    }
}

/// A session that has ended has reported that, under the key of its peer, and an inbound
/// one has given its slot back last of all; an outbound one gives no slot back.
pub proof fn law_end_is_complete(t: Setting, run: Seq<Moment>)
    requires
        stage_of_run(t, run) is Done,
    ensures
        ({
            let done = actions_of_run(t, run);
            let report = ActionModel::ReportEnded { config_key: t.key };
            if t.is_inbound {
                &&& done.len() >= 2
                &&& done[done.len() - 2] == report
                &&& done[done.len() - 1] == ActionModel::ReleaseSlot
            } else {
                &&& done.len() >= 1
                &&& done[done.len() - 1] == report
                &&& forall|i: int| 0 <= i < done.len() ==> !(#[trigger] done[i] is ReleaseSlot)
            }
        }),
{
    law_session_ends_once(t, run);
    let done = actions_of_run(t, run);
    let n = done.len() - ending(t).len();
    assert forall|i: int| n <= i < done.len() implies #[trigger] done[i] == ending(t)[i - n] by {
        assert(done.skip(n)[i - n] == done[i]);
    }
    assert forall|i: int| 0 <= i < n implies !is_end(#[trigger] done[i]) by {
        assert(done.take(n)[i] == done[i]);
    }
}

/// A peer that was identified gets its session unless that is a duplicate: what was active
/// before is cancelled first, a configured peer is reported as connected, and then the
/// session runs, with a replay where the peer is to get one. A duplicate is closed and
/// never runs.
pub proof fn law_identified_peer_gets_its_session(
    m: ManagerModel,
    t: Setting,
    bridge_id: Seq<char>,
)
    ensures
        ({
            let news = NewsModel::Identified { bridge_id };
            let actions = actions_for(m, t, StageModel::Handshaking, news);
            let stage = stage_after(m, t, StageModel::Handshaking, news);
            let after = manager_after(m, t, StageModel::Handshaking, news);
            match peers::registered_outcome(m, t.local_id, bridge_id, t.is_inbound) {
                SessionOutcome::Rejected => {
                    &&& stage == StageModel::Done
                    &&& actions[0] == ActionModel::CloseDuplicate
                    &&& forall|i: int| 0 <= i < actions.len() ==> !(#[trigger] actions[i] is Run)
                },
                outcome => {
                    &&& actions.last() == ActionModel::Run {
                        replay: peers::replays_params(t.configs, t.key),
                    }
                    &&& t.key matches Some(k) ==> actions.contains(
                        ActionModel::ReportConnected { config_key: k },
                    )
                    &&& t.key is None ==> forall|i: int|
                        0 <= i < actions.len() ==> !(#[trigger] actions[i] is ReportConnected)
                    &&& outcome matches SessionOutcome::Replaced { entry_id, .. } ==> actions[0]
                        == ActionModel::Cancel { entry_id }
                    &&& outcome is Admitted ==> forall|i: int|
                        0 <= i < actions.len() ==> !(#[trigger] actions[i] is Cancel)
                    &&& stage matches StageModel::Active { remote_id, entry_id } && remote_id
                        == bridge_id && peers::is_current(after, bridge_id, entry_id)
                },
            }
        }),
{
    let news = NewsModel::Identified { bridge_id };
    let actions = actions_for(m, t, StageModel::Handshaking, news);
    let outcome = peers::registered_outcome(m, t.local_id, bridge_id, t.is_inbound);
    if !(outcome is Rejected) {
        if let Some(k) = t.key {
            let at: int = if outcome is Replaced {
                1
            } else {
                0
            };
            assert(actions[at] == ActionModel::ReportConnected { config_key: k });
        }
    }
}

/// When a session that kept a configured peer from being dialled has ended, that peer is
/// dialled afresh, before the end is reported; otherwise nothing is dialled.
pub proof fn law_end_resumes_the_dial(
    m: ManagerModel,
    t: Setting,
    remote_id: Seq<char>,
    entry_id: u64,
)
    ensures
        ({
            let actions = actions_for(
                m,
                t,
                StageModel::Active { remote_id, entry_id },
                NewsModel::Over,
            );
            match peers::resumed(m, t.configs, remote_id, entry_id, t.is_inbound) {
                Some(i) => actions[0] == (ActionModel::Dial { config: i, attempt: 0 }),
                None => forall|j: int|
                    0 <= j < actions.len() ==> !(#[trigger] actions[j] is Dial),
            }
        }),
{
}

} // verus!
