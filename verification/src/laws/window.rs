//! What the buttons of the window do.

use crate::config::{configs_view, named_config, SeparatorConfig, Settings};
use crate::laws::commands::lemma_named;
use crate::laws::scanning::lemma_ready_count;
use crate::lyrics::{cover_status, normalize_lyrics, shown_lyrics, LyricsSources};
use crate::media::{pick_items, AudioItem, AudioKind, ItemView};
use crate::message::{messages_view, MessageView, TaskMessage};
use crate::number::decimal;
use crate::path::{path_opt, paths_view, FilePath};
use crate::picture::{load_color_image, pixels_opt, CoverFile, Pixels};
use crate::scan::{input_items, scan_for_window, stem_items};
use crate::search::{found_view, Found};
use crate::session::{
    audio_of, ncm_among, ncm_count, without, PlayOutcome, Player, PlayerView, SeekOutcome, Sound,
    Start, StemStudio, StudioView,
};
use crate::text::texts;
use crate::tools::build_tool_status;
use vstd::prelude::*;

verus! {

// ---------------------------------------------------------------------------
// Opening and scanning
// ---------------------------------------------------------------------------

/// The window opens with what it was given, with nothing listed, selected or
/// played, and is ready.
pub proof fn law_window_opens(
    settings: Settings,
    separators: Vec<SeparatorConfig>,
    ncmdump: Option<FilePath>,
    demucs: Vec<String>,
    studio: StemStudio,
    status: String,
)
    requires
        demucs@.len() > 0,
        call_ensures(StemStudio::new, (settings, separators, ncmdump, demucs), studio),
        call_ensures(build_tool_status, (&demucs, ncmdump is Some, &ncmdump), status),
    ensures
        studio.settings@ == settings@,
        configs_view(studio.separators@) == configs_view(separators@),
        path_opt(studio.ncmdump) == path_opt(ncmdump),
        texts(studio.demucs_command@) == texts(demucs@),
        studio.tool_status@ == status@,
        studio.items@.len() == 0,
        studio.stems@.len() == 0,
        studio.selected_items@.len() == 0,
        studio.selected_stem is None,
        studio.progress is None,
        studio.status@ == "准备就绪"@,
        !studio.running,
        !studio.player.active,
        !studio.player.paused,
        studio.player.now_playing@ == "未播放"@,
        studio.player.path is None,
        studio.player.duration is None,
        studio.player.offset == 0,
        studio.cover_status@ == "未加载封面"@,
        studio.lyrics_text@ == "未加载歌词"@,
        studio.lyrics_status@ == "未加载歌词"@,
{
    assert(studio@.items.len() == studio.items@.len());
    assert(studio@.stems.len() == studio.stems@.len());
    assert(studio@.player == studio.player@);
}

/// A scan of the source directory lists what lies there, selects nothing, says
/// how much it is, and asks for a scan of the output directory. A directory
/// that does not exist lists nothing, which is said.
pub proof fn law_window_scanned(exists: bool, walked: &Vec<FilePath>, found: &Vec<Found>)
    ensures
        forall|studio: &mut StemStudio, more: bool| #[trigger]
            call_ensures(StemStudio::scan_inputs, (studio, exists, walked, found), more) ==> ({
                let before = (*studio)@;
                let after = (*final(studio))@;
                &&& more == exists
                &&& exists ==> after.items == input_items(
                    paths_view(walked@),
                    found_view(found@),
                    true,
                ) && after.status == "已扫描 "@ + decimal(after.items.len()) + " 个文件, "@
                    + decimal(after.items.filter(|i: ItemView| i.process_path is Some).len())
                    + " 个可分离"@
                &&& !exists ==> after.items.len() == 0 && after.status == "音频目录不存在"@
                &&& after.selected_items.len() == 0
                &&& after == (StudioView {
                    items: after.items,
                    selected_items: after.selected_items,
                    status: after.status,
                    ..before
                })
            }),
{
    let items = input_items(paths_view(walked@), found_view(found@), true);
    lemma_ready_count(items);
}

/// A scan of the output directory lists the stems that lie there. A selected
/// stem stays selected as long as there are so many.
pub proof fn law_window_stems(exists: bool, walked: &Vec<FilePath>)
    ensures
        forall|studio: &mut StemStudio| #[trigger]
            call_ensures(StemStudio::scan_stems, (studio, exists, walked), ()) ==> ({
                let before = (*studio)@;
                let after = (*final(studio))@;
                &&& exists ==> after.stems == stem_items(paths_view(walked@))
                &&& !exists ==> after.stems.len() == 0
                &&& after.selected_stem == (if before.selected_stem is Some
                    && before.selected_stem->0 < after.stems.len() {
                    before.selected_stem
                } else {
                    None
                })
                &&& after == (StudioView {
                    stems: after.stems,
                    selected_stem: after.selected_stem,
                    ..before
                })
            }),
{
}

/// What the window takes from the two scans is what scanning gives.
pub proof fn law_window_scan(
    exists: bool,
    walked: &Vec<FilePath>,
    found: &Vec<Found>,
    shown: (Vec<AudioItem>, String),
)
    requires
        call_ensures(scan_for_window, (exists, walked, found), shown),
    ensures
        forall|studio: &mut StemStudio, more: bool| #[trigger]
            call_ensures(StemStudio::scan_inputs, (studio, exists, walked, found), more)
                ==> crate::media::items_view(shown.0@) == (*final(studio))@.items && shown.1@ == (
            *final(studio))@.status,
{
}

// ---------------------------------------------------------------------------
// Selecting
// ---------------------------------------------------------------------------

/// Pressing on an item that is selected takes it, and it alone, out of the
/// selection; pressing on another selects that one alone.
pub proof fn law_item_pressed(i: usize)
    ensures
        forall|studio: &mut StemStudio| #[trigger]
            call_ensures(StemStudio::toggle_item, (studio, i), ()) ==> ({
                let before = (*studio)@;
                let after = (*final(studio))@;
                &&& after.selected_items == (if exists|k: int|
                    0 <= k < before.selected_items.len() && #[trigger] before.selected_items[k]
                        == i {
                    before.selected_items.filter(|x: usize| x != i)
                } else {
                    seq![i]
                })
                &&& after == (StudioView { selected_items: after.selected_items, ..before })
            }),
{
    assert forall|studio: &mut StemStudio| #[trigger]
        call_ensures(StemStudio::toggle_item, (studio, i), ()) implies ({
        let before = (*studio)@;
        let after = (*final(studio))@;
        &&& after.selected_items == (if exists|k: int|
            0 <= k < before.selected_items.len() && #[trigger] before.selected_items[k] == i {
            before.selected_items.filter(|x: usize| x != i)
        } else {
            seq![i]
        })
        &&& after == (StudioView { selected_items: after.selected_items, ..before })
    }) by {
        lemma_without_filters((*studio)@.selected_items, i);
    }
}

/// Leaving out an index keeps the others.
proof fn lemma_without_filters(selected: Seq<usize>, i: usize)
    ensures
        without(selected, i) == selected.filter(|x: usize| x != i),
    decreases selected.len(),
{
    reveal(Seq::filter);
    if selected.len() > 0 {
        lemma_without_filters(selected.drop_last(), i);
    }
}

/// An item is selected exactly if its index is among those of the selection.
pub proof fn law_is_selected(studio: &StemStudio, i: usize, yes: bool)
    requires
        call_ensures(StemStudio::is_selected, (studio, i), yes),
    ensures
        yes <==> exists|k: int|
            0 <= k < studio.selected_items@.len() && #[trigger] studio.selected_items@[k] == i,
{
}

/// Pressing on a stem selects it and changes nothing else.
pub proof fn law_stem_selected(i: usize)
    ensures
        forall|studio: &mut StemStudio| #[trigger]
            call_ensures(StemStudio::select_stem, (studio, i), ()) ==> ({
                let after = (*final(studio))@;
                &&& after.selected_stem == Some(i)
                &&& after == (StudioView { selected_stem: after.selected_stem, ..(*studio)@ })
            }),
{
}

/// Choosing a separator chooses the first of its modes and of its models with
/// it, as far as it has any, and changes nothing else.
pub proof fn law_separator_chosen(name: &str)
    ensures
        forall|studio: &mut StemStudio| #[trigger]
            call_ensures(StemStudio::choose_separator, (studio, name), ()) ==> ({
                let before = (*studio)@;
                let after = (*final(studio))@;
                let old_settings = before.settings;
                let settings = after.settings;
                &&& settings.separator == name@
                &&& settings.source == old_settings.source
                &&& settings.output == old_settings.output
                &&& settings.device == old_settings.device
                &&& after == (StudioView { settings: after.settings, ..before })
                &&& (forall|k: int|
                    0 <= k < before.separators.len() ==> (#[trigger] before.separators[k]).name
                        != name@) ==> settings.mode == old_settings.mode && settings.model
                    == old_settings.model
                &&& forall|k: int|
                    0 <= k < before.separators.len() && (#[trigger] before.separators[k]).name
                        == name@ && (forall|j: int|
                        0 <= j < k ==> (#[trigger] before.separators[j]).name != name@) ==> ({
                        let chosen = before.separators[k];
                        &&& settings.mode == (if chosen.modes.len() > 0 {
                            chosen.modes[0]
                        } else {
                            old_settings.mode
                        })
                        &&& settings.model == (if chosen.models.len() > 0 {
                            chosen.models[0]
                        } else {
                            old_settings.model
                        })
                    })
            }),
{
    assert forall|studio: &mut StemStudio| #[trigger]
        call_ensures(StemStudio::choose_separator, (studio, name), ()) implies ({
        let before = (*studio)@;
        let after = (*final(studio))@;
        let old_settings = before.settings;
        let settings = after.settings;
        &&& settings.separator == name@
        &&& settings.source == old_settings.source
        &&& settings.output == old_settings.output
        &&& settings.device == old_settings.device
        &&& after == (StudioView { settings: after.settings, ..before })
        &&& (forall|k: int|
            0 <= k < before.separators.len() ==> (#[trigger] before.separators[k]).name != name@)
            ==> settings.mode == old_settings.mode && settings.model == old_settings.model
        &&& forall|k: int|
            0 <= k < before.separators.len() && (#[trigger] before.separators[k]).name == name@ && (
            forall|j: int| 0 <= j < k ==> (#[trigger] before.separators[j]).name != name@) ==> ({
                let chosen = before.separators[k];
                &&& settings.mode == (if chosen.modes.len() > 0 {
                    chosen.modes[0]
                } else {
                    old_settings.mode
                })
                &&& settings.model == (if chosen.models.len() > 0 {
                    chosen.models[0]
                } else {
                    old_settings.model
                })
            })
    }) by {
        let all = (*studio)@.separators;
        lemma_named(all, name@);
        assert forall|k: int|
            0 <= k < all.len() && (#[trigger] all[k]).name == name@ && (forall|j: int|
                0 <= j < k ==> (#[trigger] all[j]).name != name@) implies named_config(all, name@)
            == Some(all[k]) by {
            let m = choose|m: int|
                #![trigger all[m]]
                0 <= m < all.len() && Some(all[m]) == named_config(all, name@) && all[m].name
                    == name@ && forall|j: int|
                    0 <= j < m ==> (#[trigger] all[j]).name != name@;
            assert(m == k);
        }
    }
}

/// The modes and the models that can be chosen are those of the separator that
/// is chosen; where there is none of that name, there are none.
pub proof fn law_choices(studio: &StemStudio, lists: (Vec<String>, Vec<String>), k: int)
    requires
        call_ensures(StemStudio::choices, (studio,), lists),
        0 <= k <= studio.separators@.len(),
        k < studio.separators@.len() ==> studio.separators@[k].name@ == studio.settings.separator@,
        forall|j: int|
            0 <= j < k ==> (#[trigger] studio.separators@[j]).name@ != studio.settings.separator@,
    ensures
        k < studio.separators@.len() ==> texts(lists.0@) == texts(studio.separators@[k].modes@)
            && texts(lists.1@) == texts(studio.separators@[k].models@),
        k == studio.separators@.len() ==> lists.0@.len() == 0 && lists.1@.len() == 0,
{
    let all = configs_view(studio.separators@);
    let name = studio.settings.separator@;
    lemma_named(all, name);
    assert forall|j: int| 0 <= j < all.len() implies #[trigger] all[j]
        == studio.separators@[j]@ by {}
    assert forall|j: int| 0 <= j < k implies (#[trigger] all[j]).name != name by {
        assert(studio.separators@[j].name@ != name);
    }
    assert(texts(lists.0@).len() == lists.0@.len());
    assert(texts(lists.1@).len() == lists.1@.len());
    if k < all.len() {
        assert(all[k].name == name);
        let m = choose|m: int|
            #![trigger all[m]]
            0 <= m < all.len() && Some(all[m]) == named_config(all, name) && all[m].name == name
                && forall|j: int| 0 <= j < m ==> (#[trigger] all[j]).name != name;
        assert(m == k);
    } else if named_config(all, name) is Some {
        let m = choose|m: int|
            #![trigger all[m]]
            0 <= m < all.len() && all[m].name == name;
        assert(all[m].name != name);
    }
}

/// The selected items are those of the selection, and the selected NCM files
/// those of them that are NCM files, in the same order.
pub proof fn law_selected(studio: &StemStudio, all: Vec<usize>, ncm: Vec<usize>)
    requires
        call_ensures(StemStudio::selected_audio_indices, (studio,), all),
        call_ensures(StemStudio::selected_ncm_indices, (studio,), ncm),
    ensures
        all@ == studio.selected_items@,
        ncm@ == all@.filter(
            |i: usize| i < studio@.items.len() && studio@.items[i as int].kind == AudioKind::Ncm,
        ),
{
    lemma_ncm_filters(studio@.items, studio@.selected_items);
}

/// The NCM files of a selection.
proof fn lemma_ncm_filters(items: Seq<ItemView>, selected: Seq<usize>)
    ensures
        ncm_among(items, selected) == selected.filter(
            |i: usize| i < items.len() && items[i as int].kind == AudioKind::Ncm,
        ),
    decreases selected.len(),
{
    reveal(Seq::filter);
    if selected.len() > 0 {
        lemma_ncm_filters(items, selected.drop_last());
    }
}

/// Picked items are those of the indices, in their order.
pub proof fn law_picked(items: &Vec<AudioItem>, indices: &Vec<usize>, out: Vec<AudioItem>, k: int)
    requires
        call_ensures(pick_items, (items, indices), out),
        0 <= k < indices@.len(),
        forall|j: int| 0 <= j < indices@.len() ==> (#[trigger] indices@[j]) < items@.len(),
    ensures
        out@.len() == indices@.len(),
        out@[k]@ == items@[indices@[k] as int]@,
{
    let view = crate::media::items_view(out@);
    assert(view.len() == out@.len());
    assert(view[k] == out@[k]@);
    assert(indices@[k] < items@.len());
}

/// An item can be separated exactly if there is audio of it.
pub proof fn law_can_separate(item: &AudioItem, yes: bool)
    requires
        call_ensures(AudioItem::can_separate, (item,), yes),
    ensures
        yes <==> item.process_path is Some,
{
}

// ---------------------------------------------------------------------------
// Tasks
// ---------------------------------------------------------------------------

/// Whether a job does for those items of the window what its settings say.
pub open spec fn as_set(start: Start, studio: StudioView, indices: Seq<usize>) -> bool {
    &&& start.job is Some
    &&& start.job->0.indices@ == indices
    &&& start.job->0.items@.len() == indices.len()
    &&& forall|k: int|
        0 <= k < indices.len() ==> (#[trigger] start.job->0.items@[k])@
            == studio.items[indices[k] as int]
    &&& path_opt(start.job->0.ncmdump) == studio.ncmdump
    &&& start.job->0.output_dir.text@ == studio.settings.output
    &&& configs_view(start.job->0.separators@) == studio.separators
    &&& start.job->0.separator@ == studio.settings.separator
    &&& start.job->0.model@ == studio.settings.model
    &&& start.job->0.mode@ == studio.settings.mode
    &&& start.job->0.device@ == studio.settings.device
    &&& texts(start.job->0.demucs_base@) == studio.demucs_command
}

/// A job of the window is as it is set.
proof fn lemma_as_set(start: Start, studio: StudioView, indices: Seq<usize>)
    requires
        crate::session::is_job(start.job, studio, indices),
    ensures
        as_set(start, studio, indices),
{
    let job = start.job->0;
    let view = crate::media::items_view(job.items@);
    assert(job@.items == view);
    assert(view.len() == job.items@.len());
    assert forall|k: int| 0 <= k < indices.len() implies (#[trigger] job.items@[k])@
        == studio.items[indices[k] as int] by {
        assert(view[k] == job.items@[k]@);
    }
}

/// Separating begins a task for all selected items, with the settings that are
/// saved, and puts the progress back; but not while a task runs, and not if
/// nothing is selected, which is said.
pub proof fn law_separation_begun()
    ensures
        forall|studio: &mut StemStudio, start: Start| #[trigger]
            call_ensures(StemStudio::separate_selected, (studio,), start) ==> ({
                let before = (*studio)@;
                let after = (*final(studio))@;
                if before.running || before.selected_items.len() == 0 {
                    &&& after.status == (if before.running {
                        "已有任务正在运行"@
                    } else {
                        "请先选择音频"@
                    })
                    &&& after == (StudioView { status: after.status, ..before })
                    &&& !start.save
                    &&& start.job is None
                } else {
                    &&& after.running
                    &&& after.progress is None
                    &&& after == (StudioView { running: true, progress: None, ..before })
                    &&& start.save
                    &&& as_set(start, before, before.selected_items)
                }
            }),
{
    assert forall|studio: &mut StemStudio, start: Start| #[trigger]
        call_ensures(StemStudio::separate_selected, (studio,), start) && !(*studio)@.running
            && (*studio)@.selected_items.len() > 0 implies as_set(
        start,
        (*studio)@,
        (*studio)@.selected_items,
    ) by {
        lemma_as_set(start, (*studio)@, (*studio)@.selected_items);
    }
}

/// Converting begins a task for the selected NCM files alone; but not while a
/// task runs, not if none is selected, and not without ncmdump, which is said.
/// The settings are saved once there is something to convert.
pub proof fn law_conversion_begun()
    ensures
        forall|studio: &mut StemStudio, start: Start| #[trigger]
            call_ensures(StemStudio::convert_ncm_selected, (studio,), start) ==> ({
                let before = (*studio)@;
                let after = (*final(studio))@;
                let ncm = before.selected_items.filter(
                    |i: usize|
                        i < before.items.len() && before.items[i as int].kind == AudioKind::Ncm,
                );
                &&& start.save <==> !before.running && ncm.len() > 0
                &&& if before.running || ncm.len() == 0 || before.ncmdump is None {
                    &&& after.status == (if before.running {
                        "已有任务正在运行"@
                    } else if ncm.len() == 0 {
                        "选中项中没有 NCM 文件"@
                    } else {
                        "未找到 ncmdump"@
                    })
                    &&& after == (StudioView { status: after.status, ..before })
                    &&& start.job is None
                } else {
                    &&& after == (StudioView { running: true, progress: None, ..before })
                    &&& as_set(start, before, ncm)
                }
            }),
{
    assert forall|studio: &mut StemStudio, start: Start| #[trigger]
        call_ensures(StemStudio::convert_ncm_selected, (studio,), start) implies ({
        let before = (*studio)@;
        let after = (*final(studio))@;
        let ncm = before.selected_items.filter(
            |i: usize| i < before.items.len() && before.items[i as int].kind == AudioKind::Ncm,
        );
        &&& start.save <==> !before.running && ncm.len() > 0
        &&& if before.running || ncm.len() == 0 || before.ncmdump is None {
            &&& after.status == (if before.running {
                "已有任务正在运行"@
            } else if ncm.len() == 0 {
                "选中项中没有 NCM 文件"@
            } else {
                "未找到 ncmdump"@
            })
            &&& after == (StudioView { status: after.status, ..before })
            &&& start.job is None
        } else {
            &&& after == (StudioView { running: true, progress: None, ..before })
            &&& as_set(start, before, ncm)
        }
    }) by {
        let before = (*studio)@;
        lemma_ncm_filters(before.items, before.selected_items);
        let ncm = ncm_among(before.items, before.selected_items);
        if !before.running && ncm.len() > 0 && before.ncmdump is Some {
            lemma_as_set(start, before, ncm);
        }
    }
}

/// Asking a task to stop is said, and from then on none runs.
pub proof fn law_task_stopped()
    ensures
        forall|studio: &mut StemStudio| #[trigger]
            call_ensures(StemStudio::stop_task, (studio,), ()) ==> ({
                let after = (*final(studio))@;
                &&& !after.running
                &&& after.status == "已请求停止任务"@
                &&& after == (StudioView { running: false, status: after.status, ..(*studio)@ })
            }),
{
}

/// The messages of a task are taken in from the first to the last; a task is
/// over exactly if it says so or is gone, and no longer runs then.
pub proof fn law_messages_taken(messages: Vec<TaskMessage>, gone: bool)
    ensures
        forall|studio: &mut StemStudio, over: bool| #[trigger]
            call_ensures(StemStudio::pump_task_messages, (studio, messages, gone), over) ==> ({
                let after = (*final(studio))@;
                let told = (*studio)@.told_all(messages_view(messages@));
                &&& over <==> gone || exists|i: int|
                    0 <= i < messages@.len() && #[trigger] messages@[i] is Done
                &&& after.running <==> told.running && !over
                &&& after == (StudioView { running: after.running, ..told })
            }),
{
    let view = messages_view(messages@);
    assert(view.len() == messages@.len());
    assert forall|i: int| 0 <= i < view.len() implies ((#[trigger] view[i]) is Done
        <==> messages@[i] is Done) by {
        assert(view[i] == messages@[i]@);
    }
    if exists|i: int| 0 <= i < messages@.len() && #[trigger] messages@[i] is Done {
        let i = choose|i: int| 0 <= i < messages@.len() && #[trigger] messages@[i] is Done;
        assert(view[i] is Done);
    }
    if exists|i: int| 0 <= i < view.len() && (#[trigger] view[i]) is Done {
        let i = choose|i: int| 0 <= i < view.len() && (#[trigger] view[i]) is Done;
        assert(messages@[i] is Done);
    }
}

/// What one message does to the window: progress and status are shown, the
/// status of an item is that item's, and its audio is only replaced by a new
/// one; anything else changes nothing.
pub proof fn law_message_taken(studio: StudioView, message: MessageView)
    ensures
        studio.told_all(seq![]) == studio,
        ({
            let after = studio.told_all(seq![message]);
            match message {
                MessageView::Progress(mark) => after == (StudioView {
                    progress: Some(mark),
                    ..studio
                }),
                MessageView::Status(status) => after == (StudioView { status, ..studio }),
                MessageView::InputStatus(i, status, path) => if 0 <= i < studio.items.len() {
                    &&& after == (StudioView { items: after.items, ..studio })
                    &&& after.items.len() == studio.items.len()
                    &&& forall|k: int|
                        0 <= k < studio.items.len() && k != i ==> #[trigger] after.items[k]
                            == studio.items[k]
                    &&& after.items[i].status == status
                    &&& after.items[i].path == studio.items[i].path
                    &&& after.items[i].kind == studio.items[i].kind
                    &&& after.items[i].process_path == (if path is Some {
                        path
                    } else {
                        studio.items[i].process_path
                    })
                } else {
                    after == studio
                },
                MessageView::Log(_) => after == studio,
                MessageView::Done => after == studio,
            }
        }),
{
    assert(seq![message].drop_last() == Seq::<MessageView>::empty());
    assert(studio.told_all(Seq::empty()) == studio);
    assert(studio.told_all(seq![message]) == studio.told(message));
}

/// The audio whose metadata stems get is that of all items that have some, in
/// the order of the list.
pub proof fn law_listed_audio(studio: &StemStudio, paths: Vec<FilePath>)
    requires
        call_ensures(StemStudio::listed_audio, (studio,), paths),
    ensures
        paths_view(paths@) == studio@.items.filter_map(|i: ItemView| i.process_path),
{
    lemma_audio_of(studio@.items);
}

/// The audio of items.
proof fn lemma_audio_of(items: Seq<ItemView>)
    ensures
        audio_of(items) == items.filter_map(|i: ItemView| i.process_path),
    decreases items.len(),
{
    if items.len() > 0 {
        lemma_audio_of(items.drop_last());
    }
}

/// The summary counts the items, those that can be separated, the NCM files,
/// the stems and the selected items.
pub proof fn law_summary(studio: &StemStudio, labels: Vec<String>)
    requires
        call_ensures(StemStudio::summary, (studio,), labels),
    ensures
        texts(labels@) == seq![
            "输入 "@ + decimal(studio.items@.len()) + " 个"@,
            "可分离 "@ + decimal(
                studio@.items.filter(|i: ItemView| i.process_path is Some).len(),
            ) + " 个"@,
            "NCM "@ + decimal(
                studio@.items.filter(|i: ItemView| i.kind == AudioKind::Ncm).len(),
            ) + " 个"@,
            "输出音轨 "@ + decimal(studio.stems@.len()) + " 个"@,
            "已选 "@ + decimal(studio.selected_items@.len()) + " 个"@,
        ],
{
    assert(studio@.items.len() == studio.items@.len());
    assert(studio@.stems.len() == studio.stems@.len());
    lemma_ready_count(studio@.items);
    lemma_ncm_count(studio@.items);
}

/// The NCM files among items are counted.
proof fn lemma_ncm_count(items: Seq<ItemView>)
    ensures
        ncm_count(items) == items.filter(|i: ItemView| i.kind == AudioKind::Ncm).len(),
    decreases items.len(),
{
    reveal(Seq::filter);
    if items.len() > 0 {
        lemma_ncm_count(items.drop_last());
    }
}

// ---------------------------------------------------------------------------
// Playing
// ---------------------------------------------------------------------------

/// What is played is the audio of the first selected item; if there is none,
/// that is said.
pub proof fn law_input_played()
    ensures
        forall|studio: &mut StemStudio, path: Option<FilePath>| #[trigger]
            call_ensures(StemStudio::play_selected_input, (studio,), path) ==> ({
                let before = (*studio)@;
                let after = (*final(studio))@;
                &&& before.selected_items.len() == 0 ==> path is None
                &&& before.selected_items.len() > 0 ==> path_opt(path)
                    == before.items[before.selected_items[0] as int].process_path
                &&& path is Some ==> after == before
                &&& path is None ==> after.status == "请先选择输入音频"@ && after == (StudioView {
                    status: after.status,
                    ..before
                })
            }),
{
}

/// What is played is the selected stem; if none is selected, that is said, and
/// how many there are.
pub proof fn law_stem_played()
    ensures
        forall|studio: &mut StemStudio, path: Option<FilePath>| #[trigger]
            call_ensures(StemStudio::play_selected_stem, (studio,), path) ==> ({
                let before = (*studio)@;
                let after = (*final(studio))@;
                &&& path is Some <==> before.selected_stem is Some
                &&& path is Some ==> path->0@ == before.stems[before.selected_stem->0 as int].path
                    && after == before
                &&& path is None ==> after.status == (if before.stems.len() == 0 {
                    "未找到输出音轨，请先分离或检查输出目录"@
                } else {
                    "请先在右侧选择输出音轨；已找到 "@ + decimal(before.stems.len()) + " 个"@
                }) && after == (StudioView { status: after.status, ..before })
            }),
{
}

/// The output directory is scanned before a stem is played exactly if none is
/// listed.
pub proof fn law_wants_stems(studio: &StemStudio, yes: bool)
    requires
        call_ensures(StemStudio::wants_stems, (studio,), yes),
    ensures
        yes <==> studio.stems@.len() == 0,
{
    assert(studio@.stems.len() == studio.stems@.len());
}

/// A new player plays nothing.
pub proof fn law_player_new(player: Player)
    requires
        call_ensures(Player::new, (), player),
    ensures
        !player.active,
        !player.paused,
        player.now_playing@ == "未播放"@,
        player.path is None,
        player.duration is None,
        player.offset == 0,
{
}

/// Stopping the player leaves one that plays nothing, and nothing else
/// changes.
pub proof fn law_playback_stopped(fresh: Player)
    requires
        call_ensures(Player::new, (), fresh),
    ensures
        forall|studio: &mut StemStudio| #[trigger]
            call_ensures(StemStudio::stop_playback, (studio,), ()) ==> (*final(studio))@ == (
            StudioView { player: fresh@, ..(*studio)@ }),
{
}

/// What is played is paused and goes on in turn, which is said; if nothing is
/// played, nothing happens.
pub proof fn law_paused_and_resumed()
    ensures
        forall|studio: &mut StemStudio, sound: Option<Sound>| #[trigger]
            call_ensures(StemStudio::pause_resume, (studio,), sound) ==> ({
                let before = (*studio)@;
                let after = (*final(studio))@;
                &&& !before.player.active ==> sound is None && after == before
                &&& before.player.active ==> {
                    &&& sound == Some(
                        if before.player.paused {
                            Sound::Resume
                        } else {
                            Sound::Pause
                        },
                    )
                    &&& after.player.paused == !before.player.paused
                    &&& after.player == (PlayerView {
                        paused: after.player.paused,
                        ..before.player
                    })
                    &&& after.status == (if before.player.paused {
                        "播放中"@
                    } else {
                        "已暂停"@
                    })
                    &&& after == (StudioView {
                        player: after.player,
                        status: after.status,
                        ..before
                    })
                }
            }),
{
}

/// A file that plays is named, from its beginning and not paused; one that does
/// not leaves a player that plays nothing. Either is said.
pub proof fn law_audio_played(path: &FilePath, outcome: PlayOutcome, fresh: Player)
    requires
        call_ensures(Player::new, (), fresh),
    ensures
        forall|studio: &mut StemStudio| #[trigger]
            call_ensures(StemStudio::play_audio, (studio, path, outcome), ()) ==> ({
                let after = (*final(studio))@;
                &&& match outcome {
                    PlayOutcome::Failed => after.player == fresh@ && after.status == "播放失败"@,
                    PlayOutcome::Started(duration) => {
                        &&& after.player.active
                        &&& !after.player.paused
                        &&& after.player.now_playing == "正在播放: "@ + (
                        if path@.file_name() is Some {
                            path@.file_name()->0
                        } else {
                            seq![]
                        })
                        &&& after.player.path == Some(path@)
                        &&& after.player.duration == duration
                        &&& after.player.offset == 0
                        &&& after.status == "播放中"@
                    },
                }
                &&& after == (StudioView {
                    player: after.player,
                    status: after.status,
                    ..(*studio)@
                })
            }),
{
}

/// Going to another place of the file that is played starts the count there
/// anew: from the beginning if the player itself went there, and from that
/// place if the file is played anew. What fails is said, and changes nothing
/// else; so does nothing at all while no file is played.
pub proof fn law_playback_moved(target: u128, outcome: SeekOutcome)
    ensures
        forall|studio: &mut StemStudio| #[trigger]
            call_ensures(StemStudio::seek_playback, (studio, target, outcome), ()) ==> ({
                let before = (*studio)@;
                let after = (*final(studio))@;
                if before.player.path is None {
                    after == before
                } else {
                    match outcome {
                        SeekOutcome::Moved => after.player.offset == 0 && after == (StudioView {
                            player: PlayerView { offset: after.player.offset, ..before.player },
                            ..before
                        }),
                        SeekOutcome::Restarted => after.player.offset == target
                            && after.player.active && after == (StudioView {
                            player: PlayerView {
                                active: true,
                                offset: after.player.offset,
                                ..before.player
                            },
                            ..before
                        }),
                        _ => after.status == "跳转失败："@ + (match outcome {
                            SeekOutcome::NoFile => "无法打开音频"@,
                            SeekOutcome::NotAudio => "无法解码音频"@,
                            SeekOutcome::NoDevice => "没有音频输出设备"@,
                            _ => "无法创建播放器"@,
                        }) && after == (StudioView { status: after.status, ..before }),
                    }
                }
            }),
{
    reveal_strlit("跳转失败：");
    reveal_strlit("无法打开音频");
    reveal_strlit("无法解码音频");
    reveal_strlit("没有音频输出设备");
    reveal_strlit("无法创建播放器");
    reveal_strlit("跳转失败：无法打开音频");
    reveal_strlit("跳转失败：无法解码音频");
    reveal_strlit("跳转失败：没有音频输出设备");
    reveal_strlit("跳转失败：无法创建播放器");
    assert("跳转失败：无法打开音频"@ == "跳转失败："@ + "无法打开音频"@);
    assert("跳转失败：无法解码音频"@ == "跳转失败："@ + "无法解码音频"@);
    assert("跳转失败：没有音频输出设备"@ == "跳转失败："@ + "没有音频输出设备"@);
    assert("跳转失败：无法创建播放器"@ == "跳转失败："@ + "无法创建播放器"@);
}

/// The player is where it began and as far on as it was heard, and never past
/// the end that is known.
pub proof fn law_position(player: &Player, heard: u128, at: u128)
    requires
        player.offset + heard <= crate::session::LONGEST,
        call_ensures(Player::playback_position, (player, heard), at),
    ensures
        at <= player.offset + heard,
        player.duration is Some ==> at <= player.duration->0,
        player.duration is None || player.offset + heard <= player.duration->0 ==> at
            == player.offset + heard,
        player.duration is Some && player.duration->0 < player.offset + heard ==> at
            == player.duration->0,
{
}

// ---------------------------------------------------------------------------
// Lyrics and covers
// ---------------------------------------------------------------------------

/// The lyrics that are shown are those of the file, in order, under its name;
/// of a file that cannot be read that is said; without a file they are those in
/// the audio, and if there are none either, that is said.
pub proof fn law_shown_lyrics(
    sources: &LyricsSources,
    shown: (String, String),
    raw: &str,
    tidy: String,
)
    requires
        call_ensures(shown_lyrics, (sources,), shown),
        call_ensures(normalize_lyrics, (raw,), tidy),
    ensures
        match sources.file {
            Some((path, Some(text))) => {
                &&& raw@ == text@ ==> shown.0@ == tidy@
                &&& shown.1@ == "歌词: "@ + (if path@.file_name() is Some {
                    path@.file_name()->0
                } else {
                    seq![]
                })
            },
            Some((_, None)) => shown.0@ == "歌词读取失败"@ && shown.1@ == "歌词读取失败"@,
            None => match sources.embedded {
                Some(text) => (raw@ == text@ ==> shown.0@ == tidy@) && shown.1@
                    == "歌词: 音频内嵌"@,
                None => shown.0@ == "未找到歌词文件"@ && shown.1@ == "未找到歌词"@,
            },
        },
{
}

/// A cover that was found is named if it can be shown; else it is said that it
/// cannot, or that there is none.
pub proof fn law_cover_status(cover: &Option<FilePath>, readable: bool, status: String)
    requires
        call_ensures(cover_status, (cover, readable), status),
    ensures
        status@ == (if *cover is None {
            "未找到封面"@
        } else if !readable {
            "封面读取失败"@
        } else {
            "封面: "@ + (if (*cover)->0@.file_name() is Some {
                (*cover)->0@.file_name()->0
            } else {
                seq![]
            })
        }),
{
}

/// The window shows those lyrics and says that of the cover, and nothing else
/// changes.
pub proof fn law_sidecar_taken(
    sources: &LyricsSources,
    cover: &Option<FilePath>,
    readable: bool,
    shown: (String, String),
    status: String,
)
    requires
        call_ensures(shown_lyrics, (sources,), shown),
        call_ensures(cover_status, (cover, readable), status),
    ensures
        forall|studio: &mut StemStudio| #[trigger]
            call_ensures(StemStudio::take_sidecar, (studio, sources, cover, readable), ()) ==> (
            *final(studio))@ == (StudioView {
                lyrics_text: shown.0@,
                lyrics_status: shown.1@,
                cover_status: status@,
                ..(*studio)@
            }),
{
}

/// The picture that is shown is that of the cover, and the cover counts as
/// readable exactly if there is one.
pub proof fn law_sidecar_loaded(
    sources: &LyricsSources,
    cover: &Option<CoverFile>,
    path: &Option<FilePath>,
    picture: Option<Pixels>,
    shown: (String, String),
    status: String,
)
    requires
        *path is Some <==> *cover is Some,
        *cover is Some ==> (*path)->0@ == (*cover)->0.path@ && call_ensures(
            load_color_image,
            (&(*cover)->0,),
            picture,
        ),
        *cover is None ==> picture is None,
        call_ensures(shown_lyrics, (sources,), shown),
        call_ensures(cover_status, (path, picture is Some), status),
    ensures
        forall|studio: &mut StemStudio, p: Option<Pixels>| #[trigger]
            call_ensures(StemStudio::load_media_sidecar, (studio, sources, cover), p) ==> {
                &&& pixels_opt(p) == pixels_opt(picture)
                &&& (*final(studio))@ == (StudioView {
                    lyrics_text: shown.0@,
                    lyrics_status: shown.1@,
                    cover_status: status@,
                    ..(*studio)@
                })
            },
{
}

} // verus!
