//! What holds of the interface whatever happens to it.

use vstd::prelude::*;

use crate::game::GameId;
use crate::search;
use crate::state::{EffectView, MsgView, PrefView, RowView, StateView, Step, UiState};

verus! {

broadcast use vstd::string::group_string_axioms;

/// What is true of the interface at every moment: it is busy exactly while operations
/// are outstanding, a removal that waits would switch to another build than the one it
/// deletes, and there is no banner where nobody wants to be told of updates.
pub open spec fn consistent(s: StateView) -> bool {
    &&& s.is_busy() <==> s.outstanding > 0
    &&& s.pending_removal matches Some(pending) ==> pending.activate != pending.remove
    &&& !s.check_for_updates ==> s.update is None
    &&& s.release_cache.len() == 4
    &&& s.game_data.len() == 3
    &&& s.auto_update.len() == 2
}

/// The generation a reply answers, if it answers one.
pub open spec fn reply_to(msg: MsgView) -> Option<u64> {
    match msg {
        MsgView::InstalledLoaded { generation, .. } => Some(generation),
        MsgView::ReleasesLoaded { generation, .. } => Some(generation),
        MsgView::Progress { generation, .. } => Some(generation),
        MsgView::InstallFinished { generation, .. } => Some(generation),
        MsgView::Activated { generation, .. } => Some(generation),
        MsgView::Removed { generation, .. } => Some(generation),
        MsgView::ModeChanged { generation, .. } => Some(generation),
        MsgView::GameDataInstalled { generation, .. } => Some(generation),
        _ => None,
    }
}

/// Whether a message says that an operation has ended.
pub open spec fn ends_an_operation(msg: MsgView) -> bool {
    match msg {
        MsgView::InstallFinished { .. } => true,
        MsgView::Activated { .. } => true,
        MsgView::Removed { .. } => true,
        MsgView::ModeChanged { .. } => true,
        MsgView::GameDataInstalled { .. } => true,
        _ => false,
    }
}

/// Whether an effect starts an operation that reports back when it ends.
pub open spec fn is_operation(effect: EffectView) -> bool {
    match effect {
        EffectView::Install { .. } => true,
        EffectView::Activate { .. } => true,
        EffectView::SwitchThenRemove { .. } => true,
        EffectView::SetMode { .. } => true,
        EffectView::InstallGameData { .. } => true,
        _ => false,
    }
}

/// How many of the effects start an operation.
pub open spec fn operations(effects: Seq<EffectView>) -> nat
    decreases effects.len(),
{
    if effects.len() == 0 {
        0
    } else {
        operations(effects.drop_last()) + if is_operation(effects.last()) {
            1nat
        } else {
            0
        }
    }
}

/// The generation an effect is tagged with, if it is tagged.
pub open spec fn tagged(effect: EffectView) -> Option<u64> {
    match effect {
        EffectView::LoadInstalled { generation, .. } => Some(generation),
        EffectView::InstallGameData { generation, .. } => Some(generation),
        EffectView::FetchReleases { generation, .. } => Some(generation),
        EffectView::Install { generation, .. } => Some(generation),
        EffectView::Activate { generation, .. } => Some(generation),
        EffectView::SwitchThenRemove { generation, .. } => Some(generation),
        EffectView::SetMode { generation, .. } => Some(generation),
        _ => None,
    }
}

/// Whether a message begins a new generation.
pub open spec fn renews(s: StateView, msg: MsgView) -> bool {
    match msg {
        MsgView::SelectGame(_) => true,
        MsgView::ToggleDevelop(_) => true,
        MsgView::ToggleMultiVersion(_) => !s.is_busy(),
        _ => false,
    }
}

proof fn operations_of_none()
    ensures
        operations(seq![]) == 0,
{
}

proof fn operations_of_one(e: EffectView)
    ensures
        operations(seq![e]) == if is_operation(e) {
            1nat
        } else {
            0
        },
{
    assert(seq![e].drop_last() =~= seq![]);
    operations_of_none();
}

proof fn operations_together(a: Seq<EffectView>, b: Seq<EffectView>)
    ensures
        operations(a + b) == operations(a) + operations(b),
    decreases b.len(),
{
    if b.len() == 0 {
        assert(a + b =~= a);
    } else {
        assert((a + b).drop_last() =~= a + b.drop_last());
        operations_together(a, b.drop_last());
    }
}

proof fn operations_of_two(a: EffectView, b: EffectView)
    ensures
        operations(seq![a, b]) == operations(seq![a]) + operations(seq![b]),
{
    assert(seq![a, b] =~= seq![a] + seq![b]);
    operations_together(seq![a], seq![b]);
}

proof fn operations_of_three(a: EffectView, b: EffectView, c: EffectView)
    ensures
        operations(seq![a, b, c]) == operations(seq![a, b]) + operations(seq![c]),
{
    assert(seq![a, b, c] =~= seq![a, b] + seq![c]);
    operations_together(seq![a, b], seq![c]);
}

/// The interface starts out consistent.
pub proof fn starts_consistent(s: UiState, game: GameId)
    requires
        call_ensures(UiState::new, (game,), s),
    ensures
        consistent(s@),
{
}


proof fn finds_keep_slots(
    data: Seq<Option<Seq<char>>>,
    found: Seq<(crate::gamedata::OriginalGame, Option<Seq<char>>)>,
)
    requires
        data.len() == 3,
    ensures
        crate::state::with_finds(data, found).len() == 3,
    decreases found.len(),
{
    if found.len() > 0 {
        finds_keep_slots(data, found.drop_last());
    }
}

/// How many operations are outstanding once a message has been taken in, not counting
/// those it starts.
pub open spec fn left_over(s: StateView, msg: MsgView) -> int {
    if renews(s, msg) {
        0
    } else if ends_an_operation(msg) && reply_to(msg) == Some(s.generation) && s.outstanding
        > 0 {
        s.outstanding - 1
    } else {
        s.outstanding as int
    }
}

/// Whether an effect is tagged as it should be in a step from `s` to `t`.
pub open spec fn rightly_tagged(s: StateView, t: StateView, effect: EffectView) -> bool {
    &&& tagged(effect) matches Some(generation) ==> generation == t.generation
    &&& effect matches EffectView::CancelInFlight { generation } ==> generation == s.generation
        && t.generation == s.generation + 1
}

/// What is true of every step: it keeps the interface consistent, it begins a new
/// generation or not, it counts operations, and it tags effects.
#[verifier::opaque]
spec fn sound(s: StateView, renew: bool, left: int, step: Step) -> bool {
    &&& consistent(s) ==> consistent(step.0)
    &&& step.0.generation == s.generation + if renew {
        1int
    } else {
        0
    }
    &&& step.0.outstanding == left + operations(step.1)
    &&& forall|i: int| 0 <= i < step.1.len() ==> rightly_tagged(s, step.0, #[trigger] step.1[i])
}

proof fn quiet(s: StateView, t: StateView, renew: bool, left: int)
    requires
        consistent(s) ==> consistent(t),
        t.generation == s.generation + if renew {
            1int
        } else {
            0
        },
        t.outstanding == left,
    ensures
        sound(s, renew, left, (t, seq![])),
{
    reveal(sound);
    operations_of_none();
}

proof fn single(s: StateView, t: StateView, renew: bool, left: int, e: EffectView)
    requires
        consistent(s) ==> consistent(t),
        t.generation == s.generation + if renew {
            1int
        } else {
            0
        },
        t.outstanding == left + if is_operation(e) {
            1int
        } else {
            0
        },
        rightly_tagged(s, t, e),
    ensures
        sound(s, renew, left, (t, seq![e])),
{
    reveal(sound);
    operations_of_one(e);
}

/// A sound step with more effects in front is sound, where those start no operation and
/// are rightly tagged.
proof fn sound_after(
    s: StateView,
    middle: StateView,
    left: int,
    first: Seq<EffectView>,
    step: Step,
)
    requires
        consistent(s) ==> consistent(middle),
        middle.generation == s.generation + 1,
        sound(middle, false, left, step),
        operations(first) == 0,
        forall|i: int| 0 <= i < first.len() ==> rightly_tagged(s, middle, #[trigger] first[i]),
        forall|i: int|
            0 <= i < step.1.len() ==> !((#[trigger] step.1[i]) is CancelInFlight),
    ensures
        sound(s, true, left, (step.0, first + step.1)),
{
    reveal(sound);
    operations_together(first, step.1);
    let all = first + step.1;
    assert forall|i: int| 0 <= i < all.len() implies rightly_tagged(
        s,
        step.0,
        #[trigger] all[i],
    ) by {
        if i < first.len() {
            assert(all[i] == first[i]);
        } else {
            assert(all[i] == step.1[i - first.len()]);
            assert(rightly_tagged(middle, step.0, step.1[i - first.len()]));
        }
    }
}

proof fn adopting_is_sound(s: StateView, found: Seq<RowView>)
    requires
        s.outstanding < u32::MAX,
    ensures
        sound(s, false, s.outstanding as int, s.adopting(found)),
        forall|i: int|
            0 <= i < s.adopting(found).1.len() ==> !((#[trigger] s.adopting(
                found,
            ).1[i]) is CancelInFlight),
{
    let t = StateView { releases: found, selected_release: 0, ..s };
    if t.auto_updates() && t.due() is Some {
        single(s, t.begun(1), false, s.outstanding as int, s.adopting(found).1[0]);
    } else {
        quiet(s, t, false, s.outstanding as int);
    }
}

proof fn wanting_releases_is_sound(s: StateView)
    requires
        s.outstanding < u32::MAX,
    ensures
        sound(s, false, s.outstanding as int, s.wanting_releases()),
        forall|i: int|
            0 <= i < s.wanting_releases().1.len() ==> !((
            #[trigger] s.wanting_releases().1[i]) is CancelInFlight),
{
    match s.release_cache[crate::state::cache_slot(s.selected_game, s.show_develop)] {
        Some(found) => adopting_is_sound(s, found),
        None => single(s, s, false, s.outstanding as int, s.wanting_releases().1[0]),
    }
}

proof fn selecting_game_is_sound(s: StateView, game: GameId)
    requires
        s.has_room(),
    ensures
        sound(s, true, 0, s.selecting_game(game)),
{
    let t = StateView {
        selected_game: game,
        installed: seq![],
        releases: seq![],
        active: None,
        selected_installed: 0,
        selected_release: 0,
        ..s.renewed()
    };
    let first = seq![
        EffectView::CancelInFlight { generation: s.generation },
        EffectView::SavePref(PrefView::SelectedGame(game)),
        t.reload(),
    ];
    operations_of_one(first[0]);
    operations_of_one(first[1]);
    operations_of_one(first[2]);
    operations_of_two(first[0], first[1]);
    operations_of_three(first[0], first[1], first[2]);
    wanting_releases_is_sound(t);
    sound_after(s, t, 0, first, t.wanting_releases());
}

proof fn toggling_develop_is_sound(s: StateView, on: bool)
    requires
        s.has_room(),
    ensures
        sound(s, true, 0, s.toggling_develop(on)),
{
    let t = StateView { show_develop: on, ..s.renewed() };
    let first = seq![
        EffectView::CancelInFlight { generation: s.generation },
        EffectView::SavePref(PrefView::ShowDevelop(on)),
    ];
    operations_of_one(first[0]);
    operations_of_one(first[1]);
    operations_of_two(first[0], first[1]);
    wanting_releases_is_sound(t);
    sound_after(s, t, 0, first, t.wanting_releases());
}

proof fn toggling_multi_version_is_sound(s: StateView, on: bool)
    requires
        s.has_room(),
    ensures
        sound(
            s,
            !s.is_busy(),
            if s.is_busy() {
                s.outstanding as int
            } else {
                0
            },
            s.toggling_multi_version(on),
        ),
{
    if s.is_busy() {
        quiet(s, s, false, s.outstanding as int);
    } else {
        reveal(sound);
        let effects = s.toggling_multi_version(on).1;
        assert(effects =~= seq![effects[0], effects[1]] + seq![effects[2], effects[3]]);
        operations_of_one(effects[0]);
        operations_of_one(effects[1]);
        operations_of_one(effects[2]);
        operations_of_one(effects[3]);
        operations_of_two(effects[0], effects[1]);
        operations_of_two(effects[2], effects[3]);
        operations_together(seq![effects[0], effects[1]], seq![effects[2], effects[3]]);
    }
}

proof fn toggling_auto_update_is_sound(s: StateView, on: bool)
    requires
        s.has_room(),
    ensures
        sound(s, false, s.outstanding as int, s.toggling_auto_update(on)),
{
    let t = StateView {
        auto_update: s.auto_update.update(s.selected_game.place(), on),
        ..s
    };
    let e = EffectView::SavePref(PrefView::AutoUpdate(on));
    if on && !t.is_busy() && t.due() is Some {
        let effects = s.toggling_auto_update(on).1;
        assert(effects =~= seq![e, effects[1]]);
        operations_of_one(e);
        operations_of_one(effects[1]);
        operations_of_two(e, effects[1]);
        reveal(sound);
    } else {
        single(s, t, false, s.outstanding as int, e);
    }
}

proof fn clicking_is_sound(s: StateView, msg: MsgView)
    requires
        s.has_room(),
        msg is SelectInstalled || msg is ClickPlay || msg is ClickDownload || msg is ClickRemove
            || msg is ConfirmRemove || msg is InstallerChosen,
    ensures
        sound(s, false, s.outstanding as int, s.next(msg)),
{
    let step = s.next(msg);
    if msg is ClickRemove {
        removal_switches_elsewhere(s);
    }
    if step.1.len() == 0 {
        assert(step.1 =~= seq![]);
        quiet(s, step.0, false, s.outstanding as int);
    } else {
        assert(step.1 =~= seq![step.1[0]]);
        single(s, step.0, false, s.outstanding as int, step.1[0]);
    }
}

proof fn setting_is_sound(s: StateView, msg: MsgView)
    requires
        s.has_room(),
        msg is SelectRelease || msg is UpdateChecked || msg is DismissUpdate
            || msg is OpenUpdatePage || msg is ShowSettings || msg is ToggleCheckForUpdates
            || msg is ChooseInstaller || msg is ChooseInstallRoot || msg is GameDataScanned
            || msg is StartupRepairFailed || msg is LaunchFinished || msg is Progress,
    ensures
        sound(s, false, s.outstanding as int, s.next(msg)),
{
    let step = s.next(msg);
    match msg {
        MsgView::GameDataScanned(found) => {
            if s.game_data.len() == 3 {
                finds_keep_slots(s.game_data, found);
            }
        },
        _ => {},
    }
    if step.1.len() == 0 {
        assert(step.1 =~= seq![]);
        quiet(s, step.0, false, s.outstanding as int);
    } else {
        assert(step.1 =~= seq![step.1[0]]);
        single(s, step.0, false, s.outstanding as int, step.1[0]);
    }
}

proof fn loading_is_sound(s: StateView, msg: MsgView)
    requires
        s.has_room(),
        msg is InstalledLoaded || msg is ReleasesLoaded,
    ensures
        sound(s, false, s.outstanding as int, s.next(msg)),
{
    let step = s.next(msg);
    match msg {
        MsgView::ReleasesLoaded { generation, result: Ok(found) } if generation == s.generation => {
            let slot = crate::state::cache_slot(s.selected_game, s.show_develop);
            let t = StateView { release_cache: s.release_cache.update(slot, Some(found)), ..s };
            adopting_is_sound(t, found);
            reveal(sound);
            assert forall|i: int| 0 <= i < step.1.len() implies rightly_tagged(
                s,
                step.0,
                #[trigger] step.1[i],
            ) by {
                assert(rightly_tagged(t, step.0, step.1[i]));
            }
        },
        _ => {
            assert(step.1 =~= seq![]);
            quiet(s, step.0, false, s.outstanding as int);
        },
    }
}

proof fn ending_is_sound(s: StateView, msg: MsgView)
    requires
        s.has_room(),
        ends_an_operation(msg),
    ensures
        sound(s, false, left_over(s, msg), s.next(msg)),
{
    let step = s.next(msg);
    let left = left_over(s, msg);
    if step.1.len() == 0 {
        assert(step.1 =~= seq![]);
        quiet(s, step.0, false, left);
    } else if step.1.len() == 1 {
        assert(step.1 =~= seq![step.1[0]]);
        single(s, step.0, false, left, step.1[0]);
    } else {
        assert(step.1 =~= seq![step.1[0], step.1[1]]);
        operations_of_one(step.1[0]);
        operations_of_one(step.1[1]);
        operations_of_two(step.1[0], step.1[1]);
        reveal(sound);
    }
}

proof fn choosing_a_root_is_sound(s: StateView, root: Option<Seq<char>>)
    ensures
        sound(s, false, s.outstanding as int, s.next(MsgView::InstallRootChosen(root))),
{
    let effects = s.next(MsgView::InstallRootChosen(root)).1;
    assert(effects =~= seq![effects[0], effects[1]]);
    operations_of_one(effects[0]);
    operations_of_one(effects[1]);
    operations_of_two(effects[0], effects[1]);
    reveal(sound);
}

proof fn every_step_is_sound(s: StateView, msg: MsgView)
    requires
        s.has_room(),
    ensures
        sound(s, renews(s, msg), left_over(s, msg), s.next(msg)),
{
    match msg {
        MsgView::SelectGame(game) => selecting_game_is_sound(s, game),
        MsgView::ToggleDevelop(on) => toggling_develop_is_sound(s, on),
        MsgView::ToggleMultiVersion(on) => toggling_multi_version_is_sound(s, on),
        MsgView::ToggleAutoUpdate(on) => toggling_auto_update_is_sound(s, on),
        MsgView::SelectInstalled(_)
        | MsgView::ClickPlay
        | MsgView::ClickDownload
        | MsgView::ClickRemove
        | MsgView::ConfirmRemove
        | MsgView::InstallerChosen { .. } => clicking_is_sound(s, msg),
        MsgView::InstalledLoaded { .. } | MsgView::ReleasesLoaded { .. } => loading_is_sound(
            s,
            msg,
        ),
        MsgView::InstallFinished { .. }
        | MsgView::Activated { .. }
        | MsgView::Removed { .. }
        | MsgView::ModeChanged { .. }
        | MsgView::GameDataInstalled { .. } => ending_is_sound(s, msg),
        MsgView::InstallRootChosen(root) => choosing_a_root_is_sound(s, root),
        _ => setting_is_sound(s, msg),
    }
}

/// Nothing that happens makes the interface inconsistent.
pub proof fn stays_consistent(s: StateView, msg: MsgView)
    requires
        consistent(s),
        s.has_room(),
    ensures
        consistent(s.next(msg).0),
{
    every_step_is_sound(s, msg);
    reveal(sound);
}

/// The generation goes up by one where a new one begins, and stays what it was
/// otherwise.
pub proof fn generations_go_up(s: StateView, msg: MsgView)
    requires
        s.has_room(),
    ensures
        s.next(msg).0.generation == s.generation + if renews(s, msg) {
            1int
        } else {
            0
        },
{
    every_step_is_sound(s, msg);
    reveal(sound);
}

/// Work is tagged with the generation that is current once it is issued, and what is
/// cancelled is the generation that was current before.
pub proof fn effects_are_tagged(s: StateView, msg: MsgView, i: int)
    requires
        s.has_room(),
        0 <= i < s.next(msg).1.len(),
    ensures
        rightly_tagged(s, s.next(msg).0, s.next(msg).1[i]),
{
    every_step_is_sound(s, msg);
    reveal(sound);
}

/// Every operation that is started is counted once, and every one that ends is taken
/// off the count once. A new generation counts from nothing.
pub proof fn operations_are_counted(s: StateView, msg: MsgView)
    requires
        s.has_room(),
    ensures
        s.next(msg).0.outstanding == left_over(s, msg) + operations(s.next(msg).1),
{
    every_step_is_sound(s, msg);
    reveal(sound);
}

/// A reply to work of another generation changes nothing and starts nothing.
pub proof fn stale_replies_are_dropped(s: StateView, msg: MsgView)
    requires
        reply_to(msg) matches Some(generation) && generation != s.generation,
    ensures
        s.next(msg) == (s, Seq::<EffectView>::empty()),
{
}

/// While something is under way, nothing that a person clicks on a build starts
/// anything more.
pub proof fn busy_refuses_clicks(s: StateView, msg: MsgView)
    requires
        s.is_busy(),
        msg is SelectInstalled || msg is ToggleMultiVersion || msg is ClickPlay
            || msg is ClickDownload || msg is ClickRemove || msg is ConfirmRemove,
    ensures
        s.next(msg).1.len() == 0,
        s.next(msg).0.outstanding == s.outstanding,
        s.next(msg).0.generation == s.generation,
        s.next(msg).0.selected_installed == s.selected_installed,
        s.next(msg).0.multi_version == s.multi_version,
{
}

/// A confirmation that is refused because something is under way is answered with an
/// error, and does not stay armed.
pub proof fn refused_confirmations_are_said(s: StateView)
    requires
        s.is_busy(),
        s.pending_removal is Some,
    ensures
        s.next(MsgView::ConfirmRemove).0.error is Some,
        s.next(MsgView::ConfirmRemove).0.error->0.message_is_key,
        s.next(MsgView::ConfirmRemove).0.pending_removal is None,
{
}

/// The interface after messages, one after the other.
pub open spec fn after(s: StateView, msgs: Seq<MsgView>) -> StateView
    decreases msgs.len(),
{
    if msgs.len() == 0 {
        s
    } else {
        after(s, msgs.drop_last()).next(msgs.last()).0
    }
}

/// What is deleted after a confirmation is what was on screen at the click, whatever
/// lists of builds were loaded in between, and however many.
pub proof fn removal_is_what_was_clicked(s: StateView, loads: Seq<MsgView>)
    requires
        s.next(MsgView::ClickRemove).1.len() > 0,
        forall|i: int| 0 <= i < loads.len() ==> (#[trigger] loads[i]) is InstalledLoaded,
    ensures
        ({
            let clicked = s.next(MsgView::ClickRemove).0;
            let confirmed = after(clicked, loads).next(MsgView::ConfirmRemove);
            confirmed.1 =~= seq![
                EffectView::SwitchThenRemove {
                    generation: s.generation,
                    game: s.selected_game,
                    activate: s.other_than(s.selected_build()->0.name)->0,
                    remove: s.selected_build()->0.name,
                },
            ]
        }),
{
    loads_leave_a_removal_alone(s.next(MsgView::ClickRemove).0, loads);
}

proof fn loads_leave_a_removal_alone(s: StateView, loads: Seq<MsgView>)
    requires
        forall|i: int| 0 <= i < loads.len() ==> (#[trigger] loads[i]) is InstalledLoaded,
    ensures
        after(s, loads).pending_removal == s.pending_removal,
        after(s, loads).busy == s.busy,
        after(s, loads).generation == s.generation,
        after(s, loads).selected_game == s.selected_game,
    decreases loads.len(),
{
    if loads.len() > 0 {
        let init = loads.drop_last();
        assert forall|i: int| 0 <= i < init.len() implies (#[trigger] init[i]) is InstalledLoaded by {
            assert(loads[i] is InstalledLoaded);
        }
        loads_leave_a_removal_alone(s, init);
        assert(loads[loads.len() - 1] is InstalledLoaded);
    }
}

/// A removal is asked about only where there is another build to switch to, and the
/// build to switch to is never the one that goes.
pub proof fn removal_switches_elsewhere(s: StateView)
    ensures
        s.next(MsgView::ClickRemove).0.pending_removal matches Some(pending) ==> pending.activate
            != pending.remove && s.can_remove(),
{
    let t = StateView { pending_removal: None, ..s };
    if t.selected_build() is Some {
        let name = t.selected_build()->0.name;
        search::first_that_is_first(
            |i: int| t.installed[i].name != name,
            0,
            t.installed.len() as int,
        );
    }
}

/// A new generation takes the errors of the earlier ones with it, and leaves a launch
/// error alone.
pub proof fn new_generations_keep_launch_errors(s: StateView, msg: MsgView)
    requires
        renews(s, msg),
    ensures
        s.error matches Some(alert) ==> (alert.generation is Some ==> s.next(msg).0.error is None)
            && (alert.generation is None ==> s.next(msg).0.error == s.error),
{
}

/// Releases that were fetched once stay in the cache as they are: a place in it changes
/// only on the reply to the request that it is for, and then holds what that brought.
pub proof fn the_cache_keeps(s: StateView, msg: MsgView, slot: int)
    requires
        consistent(s),
        0 <= slot < 4,
    ensures
        s.next(msg).0.release_cache[slot] == match msg {
            MsgView::ReleasesLoaded { generation, result: Ok(found) } => if generation
                == s.generation && slot == crate::state::cache_slot(
                s.selected_game,
                s.show_develop,
            ) {
                Some(found)
            } else {
                s.release_cache[slot]
            },
            _ => s.release_cache[slot],
        },
{
}

/// Going back to a game, or to a choice of channels, that was looked at already asks
/// for no releases again.
pub proof fn cached_releases_are_not_fetched(s: StateView, msg: MsgView, i: int)
    requires
        match msg {
            MsgView::SelectGame(game) => s.release_cache[crate::state::cache_slot(
                game,
                s.show_develop,
            )] is Some,
            MsgView::ToggleDevelop(on) => s.release_cache[crate::state::cache_slot(
                s.selected_game,
                on,
            )] is Some,
            _ => false,
        },
        0 <= i < s.next(msg).1.len(),
    ensures
        !(s.next(msg).1[i] is FetchReleases),
{
}

/// Nothing is installed by itself but the newest listed release, where the game is set
/// to update, and never the version that is active already.
#[verifier::rlimit(60)]
#[verifier::spinoff_prover]
pub proof fn auto_update_installs_what_is_new(s: StateView, msg: MsgView, i: int)
    requires
        consistent(s),
        s.has_room(),
        !(msg is ClickDownload),
        0 <= i < s.next(msg).1.len(),
        s.next(msg).1[i] is Install,
    ensures
        ({
            let t = s.next(msg).0;
            &&& t.auto_updates()
            &&& t.releases.len() > 0
            &&& s.next(msg).1[i]->Install_tag == t.releases[0].tag
            &&& t.active_build() matches Some(build) ==> build.tag != t.releases[0].tag
        }),
{
}

/// Changing the layout keeps the interface busy until the last game has answered.
pub proof fn mode_changes_are_awaited(s: StateView, on: bool, first: MsgView, second: MsgView)
    requires
        consistent(s),
        s.has_room(),
        !s.is_busy(),
        first is ModeChanged,
        second is ModeChanged,
        reply_to(first) == Some((s.generation + 1) as u64),
        reply_to(second) == Some((s.generation + 1) as u64),
    ensures
        s.next(MsgView::ToggleMultiVersion(on)).0.is_busy(),
        s.next(MsgView::ToggleMultiVersion(on)).0.next(first).0.is_busy(),
        !s.next(MsgView::ToggleMultiVersion(on)).0.next(first).0.next(second).0.is_busy(),
{
}

/// Once the installed builds are known, the selection stands on the active one, or on
/// the first where none is.
pub proof fn selection_follows_the_active_build(s: StateView, msg: MsgView)
    requires
        msg matches MsgView::InstalledLoaded { generation, result: Ok(loaded) } && generation
            == s.generation && loaded.0.len() <= usize::MAX,
    ensures
        ({
            let t = s.next(msg).0;
            &&& t.active_build() is Some ==> t.selected_build() == t.active_build()
            &&& t.active_build() is None ==> t.selected_installed == 0
        }),
{
    match msg {
        MsgView::InstalledLoaded { generation, result: Ok(loaded) } => {
            match loaded.1 {
                Some(active) => {
                    search::first_that_is_first(
                        |i: int|
                            crate::state::is_current(loaded.0[i], active, s.multi_version),
                        0,
                        loaded.0.len() as int,
                    );
                },
                None => {},
            }
        },
        _ => {},
    }
}

} // verus!
