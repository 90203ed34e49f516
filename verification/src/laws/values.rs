//! That the values of which the other laws speak are those that are stored:
//! each field stands for itself.

use crate::batch::{
    Action, ActionView, Batch, EndView, Event, EventView, Job, Reply, RunEnd, Stage, StageView,
};
use crate::config::{configs_view, SeparatorConfig, Settings};
use crate::media::{items_view, stems_view, AudioItem, StemItem};
use crate::message::{messages_view, Mark, MarkView, MessageView, TaskMessage};
use crate::path::{path_opt, paths_view, FilePath, PartView, PathPart};
use crate::search::{candidates_view, found_view, Candidate, Found};
use crate::session::{Player, StemStudio};
use crate::text::{text_opt, texts};
use vstd::prelude::*;

verus! {

/// A list of texts has the texts of the list, in their places.
pub proof fn law_texts(list: Seq<String>, i: int)
    requires
        0 <= i < list.len(),
    ensures
        texts(list).len() == list.len(),
        texts(list)[i] == list[i]@,
{
}

/// A path is its text, its parent, what lies above and its components.
pub proof fn law_path_value(path: FilePath, i: int)
    ensures
        path@.text == path.text@,
        path@.parent is Some <==> path.parent is Some,
        path.parent is Some ==> path@.parent->0 == path.parent->0@,
        path@.above == texts(path.above@),
        path@.parts.len() == path.parts@.len(),
        0 <= i < path.parts@.len() ==> match path.parts@[i] {
            PathPart::Prefix(s) => path@.parts[i] == PartView::Prefix(s@),
            PathPart::RootDir => path@.parts[i] == PartView::RootDir,
            PathPart::CurDir => path@.parts[i] == PartView::CurDir,
            PathPart::ParentDir => path@.parts[i] == PartView::ParentDir,
            PathPart::Normal(s) => path@.parts[i] == PartView::Normal(s@),
        },
{
}

/// Lists hold what they hold, in its places, and so do optional values.
pub proof fn law_lists(
    paths: Seq<FilePath>,
    path: Option<FilePath>,
    text: Option<String>,
    items: Seq<AudioItem>,
    stems: Seq<StemItem>,
    configs: Seq<SeparatorConfig>,
    messages: Seq<TaskMessage>,
    places: Seq<Candidate>,
    found: Seq<Found>,
    i: int,
)
    ensures
        paths_view(paths).len() == paths.len(),
        0 <= i < paths.len() ==> paths_view(paths)[i] == paths[i]@,
        path_opt(path) is Some <==> path is Some,
        path is Some ==> path_opt(path)->0 == path->0@,
        text_opt(text) is Some <==> text is Some,
        text is Some ==> text_opt(text)->0 == text->0@,
        items_view(items).len() == items.len(),
        0 <= i < items.len() ==> items_view(items)[i] == items[i]@,
        stems_view(stems).len() == stems.len(),
        0 <= i < stems.len() ==> stems_view(stems)[i] == stems[i]@,
        configs_view(configs).len() == configs.len(),
        0 <= i < configs.len() ==> configs_view(configs)[i] == configs[i]@,
        messages_view(messages).len() == messages.len(),
        0 <= i < messages.len() ==> messages_view(messages)[i] == messages[i]@,
        candidates_view(places).len() == places.len(),
        0 <= i < places.len() ==> candidates_view(places)[i] == places[i]@,
        found_view(found).len() == found.len(),
        0 <= i < found.len() ==> found_view(found)[i] == found[i]@,
{
}

/// A separator is its fields, and so are settings.
pub proof fn law_config_values(config: SeparatorConfig, settings: Settings)
    ensures
        config@.name == config.name@,
        config@.command == texts(config.command@),
        config@.models == texts(config.models@),
        config@.modes == texts(config.modes@),
        config@.args_before == texts(config.args_before@),
        config@.two_stem_flag == config.two_stem_flag@,
        config@.device_flag == config.device_flag@,
        config@.stems_mode == config.stems_mode@,
        settings@.source == settings.source@,
        settings@.output == settings.output@,
        settings@.model == settings.model@,
        settings@.mode == settings.mode@,
        settings@.device == settings.device@,
        settings@.separator == settings.separator@,
{
}

/// An item is its path, its status, the audio to separate and its kind; a stem
/// is its path and its two names.
pub proof fn law_item_values(item: AudioItem, stem: StemItem)
    ensures
        item@.path == item.path@,
        item@.status == item.status@,
        item@.process_path is Some <==> item.process_path is Some,
        item.process_path is Some ==> item@.process_path->0 == item.process_path->0@,
        item@.kind == item.kind,
        stem@.path == stem.path@,
        stem@.track_name == stem.track_name@,
        stem@.stem_name == stem.stem_name@,
{
}

/// A place is its base and the names below it; what was found is the place and
/// the path.
pub proof fn law_search_values(place: Candidate, found: Found)
    ensures
        place@.base == place.base@,
        place@.below == texts(place.below@),
        found@.candidate == found.candidate@,
        found@.path == found.path@,
{
}

/// A job is its fields.
pub proof fn law_job_value(job: Job)
    ensures
        job@.items == items_view(job.items@),
        job@.indices == job.indices@,
        job@.ncmdump is Some <==> job.ncmdump is Some,
        job.ncmdump is Some ==> job@.ncmdump->0 == job.ncmdump->0@,
        job@.output_dir == job.output_dir@,
        job@.separators == configs_view(job.separators@),
        job@.separator == job.separator@,
        job@.model == job.model@,
        job@.mode == job.mode@,
        job@.device == job.device@,
        job@.demucs_base == texts(job.demucs_base@),
{
}

/// A batch is its counts and its stage.
pub proof fn law_batch_value(batch: Batch)
    ensures
        batch@.next == batch.next,
        batch@.ok == batch.ok,
        batch@.fail == batch.fail,
        match batch.stage {
            Stage::Ready => batch@.stage is Ready,
            Stage::Converting => batch@.stage is Converting,
            Stage::Separating(p) => batch@.stage == StageView::Separating(p@),
            Stage::Stamping => batch@.stage is Stamping,
            Stage::Over => batch@.stage is Over,
        },
{
}

/// What a batch is told is what came of its last action.
pub proof fn law_event_value(event: Event)
    ensures
        match event {
            Event::Running(running) => event@ == EventView::Running(running),
            Event::Converted(Ok(path)) => event@ == EventView::Converted(Ok(path@)),
            Event::Converted(Err(e)) => event@ == EventView::Converted(Err(e@)),
            Event::Separated(RunEnd::NotRun(e)) => event@ == EventView::Separated(
                EndView::NotRun(e@),
            ),
            Event::Separated(RunEnd::Exited(exit)) => event@ == EventView::Separated(
                EndView::Exited(exit),
            ),
            Event::Stamped(n) => event@ == EventView::Stamped(n as nat),
        },
{
}

/// What a batch answers is its messages and its action.
pub proof fn law_reply_value(reply: Reply)
    ensures
        reply@.messages == messages_view(reply.messages@),
        match reply.action {
            Action::Ask => reply@.action is Ask,
            Action::Convert { cmd, ncm, out_dir, scope } => reply@.action
                == (ActionView::Convert {
                cmd: texts(cmd@),
                ncm: ncm@,
                out_dir: out_dir@,
                scope,
            }),
            Action::Separate { cmd, scope } => reply@.action == (ActionView::Separate {
                cmd: texts(cmd@),
                scope,
            }),
            Action::Stamp(p) => reply@.action == ActionView::Stamp(p@),
            Action::Finish => reply@.action is Finish,
        },
{
}

/// A message is what it says.
pub proof fn law_message_value(message: TaskMessage, mark: Mark)
    ensures
        match message {
            TaskMessage::Log(s) => message@ == MessageView::Log(s@),
            TaskMessage::Progress(m) => message@ == MessageView::Progress(m@),
            TaskMessage::Status(s) => message@ == MessageView::Status(s@),
            TaskMessage::InputStatus(i, s, Some(p)) => message@ == MessageView::InputStatus(
                i as int,
                s@,
                Some(p@),
            ),
            TaskMessage::InputStatus(i, s, None) => message@ == MessageView::InputStatus(
                i as int,
                s@,
                None,
            ),
            TaskMessage::Done => message@ is Done,
        },
        match mark {
            Mark::Counted(r, n) => mark@ == MarkView::Counted(r as int, n as int),
            Mark::Within(s, p) => mark@ == MarkView::Within(s, p),
            Mark::Told(s, t) => mark@ == MarkView::Told(s, t@),
            Mark::Converted(r, n) => mark@ == MarkView::Converted(r as int, n as int),
            Mark::FileEnd(r, n) => mark@ == MarkView::FileEnd(r as int, n as int),
        },
{
}

/// The window is its fields, and so is the player.
pub proof fn law_window_value(studio: StemStudio, player: Player)
    ensures
        studio@.settings == studio.settings@,
        studio@.separators == configs_view(studio.separators@),
        studio@.ncmdump == path_opt(studio.ncmdump),
        studio@.demucs_command == texts(studio.demucs_command@),
        studio@.tool_status == studio.tool_status@,
        studio@.items == items_view(studio.items@),
        studio@.stems == stems_view(studio.stems@),
        studio@.selected_items == studio.selected_items@,
        studio@.selected_stem == studio.selected_stem,
        studio@.progress is Some <==> studio.progress is Some,
        studio.progress is Some ==> studio@.progress->0 == studio.progress->0@,
        studio@.status == studio.status@,
        studio@.running == studio.running,
        studio@.player == studio.player@,
        studio@.cover_status == studio.cover_status@,
        studio@.lyrics_text == studio.lyrics_text@,
        studio@.lyrics_status == studio.lyrics_status@,
        player@.active == player.active,
        player@.paused == player.paused,
        player@.now_playing == player.now_playing@,
        player@.path == path_opt(player.path),
        player@.duration == player.duration,
        player@.offset == player.offset,
{
}

/// Copies are the same values, and the settings of a first run are those that
/// are loaded where none were saved.
pub proof fn law_copies_same(
    path: &FilePath,
    item: &AudioItem,
    stem: &StemItem,
    config: &SeparatorConfig,
    settings: &Settings,
    place: &Candidate,
    loaded: Settings,
)
    requires
        call_ensures(Settings::load, (None::<Settings>,), loaded),
    ensures
        forall|copy: FilePath| #[trigger]
            call_ensures(FilePath::clone, (path,), copy) ==> copy@ == path@,
        forall|copy: AudioItem| #[trigger]
            call_ensures(AudioItem::clone, (item,), copy) ==> copy@ == item@,
        forall|copy: StemItem| #[trigger]
            call_ensures(StemItem::clone, (stem,), copy) ==> copy@ == stem@,
        forall|copy: SeparatorConfig| #[trigger]
            call_ensures(SeparatorConfig::clone, (config,), copy) ==> copy@ == config@,
        forall|copy: Settings| #[trigger]
            call_ensures(Settings::clone, (settings,), copy) ==> copy@ == settings@,
        forall|copy: Candidate| #[trigger]
            call_ensures(Candidate::clone, (place,), copy) ==> copy@ == place@,
        forall|first: Settings| #[trigger]
            call_ensures(Settings::default, (), first) ==> first@ == loaded@,
{
}

} // verus!
