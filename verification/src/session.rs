//! The state of the window and what its buttons do to it.

use crate::batch::{Job, JobView};
use crate::config::{
    configs_view, copy_configs, find_separator, named_config, ConfigView, SeparatorConfig, Settings,
    SettingsView,
};
use crate::lyrics::{cover_status, normal_lyrics, shown_lyrics, LyricsSources};
use crate::media::{
    items_view, pick_items, stems_view, AudioItem, AudioKind, ItemView, StemItem, StemView,
};
use crate::message::{messages_view, Mark, MarkView, MessageView, TaskMessage};
use crate::number::{decimal, push_decimal};
use crate::path::{copy_path_opt, path_opt, paths_view, FilePath, PathView};
use crate::picture::{cover_picture, load_color_image, pixels_opt, CoverFile, Pixels};
use crate::scan::{input_items, ready_count, scan_for_window, scan_status, scan_stems, stem_items};
use crate::search::{found_view, Found, FoundView};
use crate::text::{copy_texts, texts};
use crate::tools::{build_tool_status, tool_status};
use crate::window_batch::rounds;
use vstd::prelude::*;

verus! {

// ---------------------------------------------------------------------------
// The player
// ---------------------------------------------------------------------------

/// The state of the player. Times are in nanoseconds.
#[derive(Debug)]
pub struct Player {
    /// Whether there is something to play.
    pub active: bool,
    pub paused: bool,
    pub now_playing: String,
    pub path: Option<FilePath>,
    pub duration: Option<u128>,
    /// Where the audio that is being played begins.
    pub offset: u128,
}

/// The state of the player as a value.
pub struct PlayerView {
    pub active: bool,
    pub paused: bool,
    pub now_playing: Seq<char>,
    pub path: Option<PathView>,
    pub duration: Option<u128>,
    pub offset: u128,
}

impl View for Player {
    type V = PlayerView;

    open spec fn view(&self) -> PlayerView {
        PlayerView {
            active: self.active,
            paused: self.paused,
            now_playing: self.now_playing@,
            path: path_opt(self.path),
            duration: self.duration,
            offset: self.offset,
        }
    }
}

/// A player that plays nothing.
pub open spec fn silent() -> PlayerView {
    PlayerView {
        active: false,
        paused: false,
        now_playing: "未播放"@,
        path: None,
        duration: None,
        offset: 0,
    }
}

/// A player that plays the file from its beginning.
pub open spec fn playing(path: PathView, duration: Option<u128>) -> PlayerView {
    PlayerView {
        active: true,
        paused: false,
        now_playing: "正在播放: "@ + path.name(),
        path: Some(path),
        duration,
        offset: 0,
    }
}

/// The longest time that there is, in nanoseconds.
pub const LONGEST: u128 = 18446744073709551615999999999;

impl Player {
    /// A player that plays nothing.
    pub fn new() -> (player: Player)
        ensures
            player@ == silent(),
    {
        Player {
            active: false,
            paused: false,
            now_playing: "未播放".to_string(),
            path: None,
            duration: None,
            offset: 0,
        }
    }

    /// Where in the file the player is, `heard` being how much it has played
    /// since `offset`. It is never past the end, if that is known.
    pub fn playback_position(&self, heard: u128) -> (at: u128)
        requires
            self.offset + heard <= LONGEST,
        ensures
            at == (match self.duration {
                Some(d) => if self.offset + heard <= d {
                    (self.offset + heard) as u128
                } else {
                    d
                },
                None => (self.offset + heard) as u128,
            }),
    {
        let at: u128 = self.offset + heard;
        match self.duration {
            Some(d) => if at <= d {
                at
            } else {
                d
            },
            None => at,
        }
    }
}

/// What to do with the sound.
#[derive(Debug, Clone, Copy, PartialEq, Eq, Structural)]
pub enum Sound {
    Resume,
    Pause,
}

/// What came of starting to play a file.
#[derive(Debug, Clone, Copy, PartialEq, Eq, Structural)]
pub enum PlayOutcome {
    /// It cannot be opened, read as audio, or heard.
    Failed,
    /// It plays; its duration is given if it is known.
    Started(Option<u128>),
}

/// What came of going to another place in the file.
#[derive(Debug, Clone, Copy, PartialEq, Eq, Structural)]
pub enum SeekOutcome {
    /// The player went there.
    Moved,
    NoFile,
    NotAudio,
    NoDevice,
    NoPlayer,
    /// The file is played anew from there.
    Restarted,
}

// ---------------------------------------------------------------------------
// The window
// ---------------------------------------------------------------------------

/// The state of the window.
#[derive(Debug)]
pub struct StemStudio {
    pub settings: Settings,
    pub separators: Vec<SeparatorConfig>,
    pub ncmdump: Option<FilePath>,
    pub demucs_command: Vec<String>,
    pub tool_status: String,
    pub items: Vec<AudioItem>,
    pub stems: Vec<StemItem>,
    /// The indices of the selected items, ascending.
    pub selected_items: Vec<usize>,
    pub selected_stem: Option<usize>,
    /// Where the progress bar stands; at its beginning if there is no mark.
    pub progress: Option<Mark>,
    pub status: String,
    /// Whether a task runs.
    pub running: bool,
    pub player: Player,
    pub cover_status: String,
    pub lyrics_text: String,
    pub lyrics_status: String,
}

/// The state of the window as a value.
pub struct StudioView {
    pub settings: SettingsView,
    pub separators: Seq<ConfigView>,
    pub ncmdump: Option<PathView>,
    pub demucs_command: Seq<Seq<char>>,
    pub tool_status: Seq<char>,
    pub items: Seq<ItemView>,
    pub stems: Seq<StemView>,
    pub selected_items: Seq<usize>,
    pub selected_stem: Option<usize>,
    pub progress: Option<MarkView>,
    pub status: Seq<char>,
    pub running: bool,
    pub player: PlayerView,
    pub cover_status: Seq<char>,
    pub lyrics_text: Seq<char>,
    pub lyrics_status: Seq<char>,
}

/// An optional mark as a value.
pub open spec fn mark_opt(mark: Option<Mark>) -> Option<MarkView> {
    match mark {
        Some(m) => Some(m@),
        None => None,
    }
}

impl View for StemStudio {
    type V = StudioView;

    open spec fn view(&self) -> StudioView {
        StudioView {
            settings: self.settings@,
            separators: configs_view(self.separators@),
            ncmdump: path_opt(self.ncmdump),
            demucs_command: texts(self.demucs_command@),
            tool_status: self.tool_status@,
            items: items_view(self.items@),
            stems: stems_view(self.stems@),
            selected_items: self.selected_items@,
            selected_stem: self.selected_stem,
            progress: mark_opt(self.progress),
            status: self.status@,
            running: self.running,
            player: self.player@,
            cover_status: self.cover_status@,
            lyrics_text: self.lyrics_text@,
            lyrics_status: self.lyrics_status@,
        }
    }
}

impl StudioView {
    /// Whether the selections make sense: the indices of the selected items
    /// ascend, and what is selected exists.
    pub open spec fn valid(self) -> bool {
        &&& ascending(self.selected_items)
        &&& forall|k: int|
            0 <= k < self.selected_items.len() ==> (#[trigger] self.selected_items[k])
                < self.items.len()
        &&& self.selected_stem matches Some(i) ==> i < self.stems.len()
    }

    /// The window with another status.
    pub open spec fn saying(self, status: Seq<char>) -> StudioView {
        StudioView { status, ..self }
    }

    /// The window after a scan of the source directory.
    pub open spec fn scanned(
        self,
        source_exists: bool,
        walked: Seq<PathView>,
        found: Seq<FoundView>,
    ) -> StudioView {
        let items = if source_exists {
            input_items(walked, found, true)
        } else {
            Seq::empty()
        };
        StudioView {
            items,
            selected_items: Seq::empty(),
            status: if source_exists {
                scan_status(items)
            } else {
                "音频目录不存在"@
            },
            ..self
        }
    }

    /// The window after a scan of the output directory.
    pub open spec fn with_stems(self, output_exists: bool, walked: Seq<PathView>) -> StudioView {
        let stems = if output_exists {
            stem_items(walked)
        } else {
            Seq::empty()
        };
        StudioView {
            stems,
            selected_stem: match self.selected_stem {
                Some(i) => if i < stems.len() {
                    Some(i)
                } else {
                    None
                },
                None => None,
            },
            ..self
        }
    }

    /// The window after a message of the task.
    pub open spec fn told(self, message: MessageView) -> StudioView {
        match message {
            MessageView::Log(_) => self,
            MessageView::Progress(m) => StudioView { progress: Some(m), ..self },
            MessageView::Status(s) => self.saying(s),
            MessageView::InputStatus(i, status, path) => if 0 <= i < self.items.len() {
                let item = ItemView {
                    status,
                    process_path: match path {
                        Some(p) => Some(p),
                        None => self.items[i].process_path,
                    },
                    ..self.items[i]
                };
                StudioView { items: self.items.update(i, item), ..self }
            } else {
                self
            },
            MessageView::Done => self,
        }
    }

    /// The window after some messages of the task.
    pub open spec fn told_all(self, messages: Seq<MessageView>) -> StudioView
        decreases messages.len(),
    {
        if messages.len() == 0 {
            self
        } else {
            self.told_all(messages.drop_last()).told(messages.last())
        }
    }

    /// The job of a batch of those items, with its output below a directory.
    pub open spec fn job(self, indices: Seq<usize>, output_dir: PathView) -> JobView {
        JobView {
            items: indices.map_values(|i: usize| self.items[i as int]),
            indices,
            ncmdump: self.ncmdump,
            output_dir,
            separators: self.separators,
            separator: self.settings.separator,
            model: self.settings.model,
            mode: self.settings.mode,
            device: self.settings.device,
            demucs_base: self.demucs_command,
        }
    }

    /// The window while a task begins.
    pub open spec fn begun(self) -> StudioView {
        StudioView { running: true, progress: None, ..self }
    }

    /// The state once it was told the lyrics and the cover of the track that
    /// is played.
    pub open spec fn with_sidecar(
        self,
        sources: LyricsSources,
        cover: Option<PathView>,
        readable: bool,
    ) -> StudioView {
        StudioView {
            lyrics_text: match sources.file {
                Some((_, Some(text))) => normal_lyrics(text@),
                Some((_, None)) => "歌词读取失败"@,
                None => match sources.embedded {
                    Some(text) => normal_lyrics(text@),
                    None => "未找到歌词文件"@,
                },
            },
            lyrics_status: match sources.file {
                Some((path, Some(_))) => "歌词: "@ + path@.name(),
                Some((_, None)) => "歌词读取失败"@,
                None => match sources.embedded {
                    Some(_) => "歌词: 音频内嵌"@,
                    None => "未找到歌词"@,
                },
            },
            cover_status: match cover {
                Some(path) => if readable {
                    "封面: "@ + path.name()
                } else {
                    "封面读取失败"@
                },
                None => "未找到封面"@,
            },
            ..self
        }
    }
}

/// Whether one of the messages says that the task is done.
pub open spec fn says_done(messages: Seq<MessageView>) -> bool {
    exists|i: int| 0 <= i < messages.len() && (#[trigger] messages[i]) is Done
}

/// Indices without one of them.
pub open spec fn without(selected: Seq<usize>, i: usize) -> Seq<usize>
    decreases selected.len(),
{
    if selected.len() == 0 {
        Seq::empty()
    } else if selected.last() == i {
        without(selected.drop_last(), i)
    } else {
        without(selected.drop_last(), i).push(selected.last())
    }
}

/// The selection after pressing on an item: without it if it was selected,
/// and otherwise that item alone.
pub open spec fn toggled(selected: Seq<usize>, i: usize) -> Seq<usize> {
    if selected.contains(i) {
        without(selected, i)
    } else {
        seq![i]
    }
}

/// Whether indices ascend.
pub open spec fn ascending(selected: Seq<usize>) -> bool {
    forall|j: int, k: int|
        #![trigger selected[j], selected[k]]
        0 <= j < k < selected.len() ==> selected[j] < selected[k]
}

/// Leaving out an index keeps the others, in order.
proof fn lemma_without(selected: Seq<usize>, i: usize)
    ensures
        forall|x: usize| #[trigger]
            without(selected, i).contains(x) <==> selected.contains(x) && x != i,
        ascending(selected) ==> ascending(without(selected, i)),
    decreases selected.len(),
{
    let out = without(selected, i);
    if selected.len() > 0 {
        let rest = selected.drop_last();
        let last = selected.last();
        lemma_without(rest, i);
        let less = without(rest, i);
        assert forall|x: usize| #[trigger] out.contains(x) <==> selected.contains(x) && x != i by {
            if selected.contains(x) && x != i {
                let k = choose|k: int| 0 <= k < selected.len() && selected[k] == x;
                if k < rest.len() {
                    assert(rest[k] == x);
                    assert(less.contains(x));
                    let m = choose|m: int| 0 <= m < less.len() && less[m] == x;
                    assert(out[m] == x);
                } else {
                    assert(out[out.len() - 1] == x);
                }
            }
            if out.contains(x) {
                let m = choose|m: int| 0 <= m < out.len() && out[m] == x;
                if m < less.len() {
                    assert(less[m] == x);
                    assert(less.contains(x));
                    let k = choose|k: int| 0 <= k < rest.len() && rest[k] == x;
                    assert(selected[k] == x);
                } else {
                    assert(selected[selected.len() - 1] == x);
                }
            }
        }
        if ascending(selected) {
            assert forall|j: int, k: int|
                #![trigger rest[j], rest[k]]
                0 <= j < k < rest.len() implies rest[j] < rest[k] by {
                assert(selected[j] < selected[k]);
            }
            assert forall|j: int, k: int|
                #![trigger out[j], out[k]]
                0 <= j < k < out.len() implies out[j] < out[k] by {
                if k < less.len() {
                    assert(less[j] < less[k]);
                } else {
                    assert(less.contains(less[j]));
                    let m = choose|m: int| 0 <= m < rest.len() && rest[m] == less[j];
                    assert(selected[m] < selected[selected.len() - 1]);
                }
            }
        }
    } else {
        assert(out == selected);
    }
}

/// The selected items that are NCM files.
pub open spec fn ncm_among(items: Seq<ItemView>, selected: Seq<usize>) -> Seq<usize>
    decreases selected.len(),
{
    if selected.len() == 0 {
        Seq::empty()
    } else {
        let i = selected.last();
        if i < items.len() && items[i as int].kind == AudioKind::Ncm {
            ncm_among(items, selected.drop_last()).push(i)
        } else {
            ncm_among(items, selected.drop_last())
        }
    }
}

/// The audio of the items that have some.
pub open spec fn audio_of(items: Seq<ItemView>) -> Seq<PathView>
    decreases items.len(),
{
    if items.len() == 0 {
        Seq::empty()
    } else {
        match items.last().process_path {
            Some(p) => audio_of(items.drop_last()).push(p),
            None => audio_of(items.drop_last()),
        }
    }
}

/// How many items are NCM files.
pub open spec fn ncm_count(items: Seq<ItemView>) -> nat
    decreases items.len(),
{
    if items.len() == 0 {
        0
    } else {
        ncm_count(items.drop_last()) + if items.last().kind == AudioKind::Ncm {
            1nat
        } else {
            0nat
        }
    }
}

/// What pressing a button that begins a task led to.
#[derive(Debug)]
pub struct Start {
    /// Whether the settings are to be saved.
    pub save: bool,
    /// The job to do in the background, if any.
    pub job: Option<Job>,
}

/// Whether there is a job and it is that of those items of the window, with
/// its output below the directory of the settings.
pub open spec fn is_job(job: Option<Job>, studio: StudioView, indices: Seq<usize>) -> bool {
    job matches Some(j) && j@ == studio.job(indices, j@.output_dir) && j@.output_dir.text
        == studio.settings.output
}

impl StemStudio {
    /// The window as it opens, before anything was scanned.
    pub fn new(
        settings: Settings,
        separators: Vec<SeparatorConfig>,
        ncmdump: Option<FilePath>,
        demucs_command: Vec<String>,
    ) -> (studio: StemStudio)
        requires
            demucs_command@.len() > 0,
        ensures
            studio@ == (StudioView {
                settings: settings@,
                separators: configs_view(separators@),
                ncmdump: path_opt(ncmdump),
                demucs_command: texts(demucs_command@),
                tool_status: tool_status(
                    texts(demucs_command@),
                    match path_opt(ncmdump) {
                        Some(p) => Some(p.text),
                        None => None,
                    },
                ),
                items: Seq::empty(),
                stems: Seq::empty(),
                selected_items: Seq::empty(),
                selected_stem: None,
                progress: None,
                status: "准备就绪"@,
                running: false,
                player: silent(),
                cover_status: "未加载封面"@,
                lyrics_text: "未加载歌词"@,
                lyrics_status: "未加载歌词"@,
            }),
            studio@.valid(),
    {
        let tool_status = build_tool_status(&demucs_command, ncmdump.is_some(), &ncmdump);
        let studio = StemStudio {
            settings,
            separators,
            ncmdump,
            demucs_command,
            tool_status,
            items: Vec::new(),
            stems: Vec::new(),
            selected_items: Vec::new(),
            selected_stem: None,
            progress: None,
            status: "准备就绪".to_string(),
            running: false,
            player: Player::new(),
            cover_status: "未加载封面".to_string(),
            lyrics_text: "未加载歌词".to_string(),
            lyrics_status: "未加载歌词".to_string(),
        };
        assert(studio@.items == Seq::<ItemView>::empty());
        assert(studio@.stems == Seq::<StemView>::empty());
        assert(studio@.selected_items == Seq::<usize>::empty());
        studio
    }

    /// Takes in a scan of the source directory. Says whether the output
    /// directory is to be scanned too.
    pub fn scan_inputs(
        &mut self,
        source_exists: bool,
        walked: &Vec<FilePath>,
        found: &Vec<Found>,
    ) -> (scan_output: bool)
        requires
            old(self)@.valid(),
        ensures
            final(self)@ == old(self)@.scanned(
                source_exists,
                paths_view(walked@),
                found_view(found@),
            ),
            final(self)@.valid(),
            scan_output == source_exists,
    {
        let (items, status) = scan_for_window(source_exists, walked, found);
        self.items = items;
        self.selected_items = Vec::new();
        self.status = status;
        assert(self@.selected_items == Seq::<usize>::empty());
        source_exists
    }

    /// Takes in a scan of the output directory.
    pub fn scan_stems(&mut self, output_exists: bool, walked: &Vec<FilePath>)
        requires
            old(self)@.valid(),
        ensures
            final(self)@ == old(self)@.with_stems(output_exists, paths_view(walked@)),
            final(self)@.valid(),
    {
        let (stems, selected) = scan_stems(output_exists, walked, self.selected_stem);
        self.stems = stems;
        self.selected_stem = selected;
        assert(self@.stems.len() == self.stems@.len());
    }

    /// Presses on an item: selects it and no other, or unselects it if it is
    /// selected.
    pub fn toggle_item(&mut self, i: usize)
        requires
            old(self)@.valid(),
            i < old(self)@.items.len(),
        ensures
            final(self)@ == (StudioView {
                selected_items: toggled(old(self)@.selected_items, i),
                ..old(self)@
            }),
            final(self)@.valid(),
    {
        if self.is_selected(i) {
            self.unselect(i);
        } else {
            let mut list: Vec<usize> = Vec::new();
            list.push(i);
            self.selected_items = list;
            assert(self@.selected_items == seq![i]);
        }
    }

    /// Unselects an item.
    fn unselect(&mut self, i: usize)
        requires
            old(self)@.valid(),
        ensures
            final(self)@ == (StudioView {
                selected_items: without(old(self)@.selected_items, i),
                ..old(self)@
            }),
            final(self)@.valid(),
    {
        let ghost all = self.selected_items@;
        let mut list: Vec<usize> = Vec::new();
        assert(all.take(0) == Seq::<usize>::empty());
        for k in 0..self.selected_items.len()
            invariant
                all == self.selected_items@,
                list@ == without(all.take(k as int), i),
        {
            assert(all.take(k + 1).drop_last() == all.take(k as int));
            assert(all.take(k + 1).last() == all[k as int]);
            if self.selected_items[k] != i {
                list.push(self.selected_items[k]);
            }
        }
        assert(all.take(all.len() as int) == all);
        self.selected_items = list;
        proof {
            lemma_without(all, i);
            let left = self@.selected_items;
            assert forall|k: int| 0 <= k < left.len() implies (#[trigger] left[k])
                < self@.items.len() by {
                assert(without(all, i).contains(left[k]));
                let m = choose|m: int| 0 <= m < all.len() && all[m] == left[k];
                assert(old(self)@.selected_items[m] < old(self)@.items.len());
            }
        }
    }

    /// Whether an item is selected.
    pub fn is_selected(&self, i: usize) -> (yes: bool)
        ensures
            yes == self@.selected_items.contains(i),
    {
        for k in 0..self.selected_items.len()
            invariant
                forall|j: int| 0 <= j < k ==> self.selected_items@[j] != i,
        {
            if self.selected_items[k] == i {
                assert(self@.selected_items[k as int] == i);
                return true;
            }
        }
        false
    }

    /// Selects a stem.
    pub fn select_stem(&mut self, i: usize)
        requires
            old(self)@.valid(),
            i < old(self)@.stems.len(),
        ensures
            final(self)@ == (StudioView { selected_stem: Some(i), ..old(self)@ }),
            final(self)@.valid(),
    {
        self.selected_stem = Some(i);
    }

    /// Chooses a separator, and with it the first of its modes and models.
    pub fn choose_separator(&mut self, name: &str)
        ensures
            final(self)@ == (StudioView {
                settings: match named_config(old(self)@.separators, name@) {
                    Some(cfg) => SettingsView {
                        separator: name@,
                        mode: if cfg.modes.len() > 0 {
                            cfg.modes[0]
                        } else {
                            old(self)@.settings.mode
                        },
                        model: if cfg.models.len() > 0 {
                            cfg.models[0]
                        } else {
                            old(self)@.settings.model
                        },
                        ..old(self)@.settings
                    },
                    None => SettingsView { separator: name@, ..old(self)@.settings },
                },
                ..old(self)@
            }),
    {
        let mut settings = self.settings.clone();
        settings.separator = name.to_owned();
        if let Some(cfg) = find_separator(self.separators.as_slice(), name) {
            assert(cfg@.modes.len() == cfg.modes@.len());
            assert(cfg@.models.len() == cfg.models@.len());
            if cfg.modes.len() > 0 {
                assert(cfg@.modes[0] == cfg.modes@[0]@);
                settings.mode = cfg.modes[0].clone();
            }
            if cfg.models.len() > 0 {
                assert(cfg@.models[0] == cfg.models@[0]@);
                settings.model = cfg.models[0].clone();
            }
        }
        self.settings = settings;
    }

    /// The modes and the models that can be chosen.
    pub fn choices(&self) -> (lists: (Vec<String>, Vec<String>))
        ensures
            (texts(lists.0@), texts(lists.1@)) == (match named_config(
                self@.separators,
                self@.settings.separator,
            ) {
                Some(cfg) => (cfg.modes, cfg.models),
                None => (Seq::empty(), Seq::empty()),
            }),
    {
        match find_separator(self.separators.as_slice(), self.settings.separator.as_str()) {
            Some(cfg) => (copy_texts(&cfg.modes), copy_texts(&cfg.models)),
            None => {
                let modes: Vec<String> = Vec::new();
                let models: Vec<String> = Vec::new();
                assert(texts(modes@) == Seq::<Seq<char>>::empty());
                assert(texts(models@) == Seq::<Seq<char>>::empty());
                (modes, models)
            },
        }
    }

    /// The indices of the selected items, ascending.
    pub fn selected_audio_indices(&self) -> (indices: Vec<usize>)
        ensures
            indices@ == self@.selected_items,
    {
        let mut indices: Vec<usize> = Vec::new();
        for k in 0..self.selected_items.len()
            invariant
                indices@ == self.selected_items@.take(k as int),
        {
            indices.push(self.selected_items[k]);
            assert(self.selected_items@.take(k + 1) == self.selected_items@.take(k as int).push(
                self.selected_items@[k as int],
            ));
        }
        assert(self.selected_items@.take(self.selected_items@.len() as int)
            == self.selected_items@);
        indices
    }

    /// The indices of the selected items that are NCM files, ascending.
    pub fn selected_ncm_indices(&self) -> (indices: Vec<usize>)
        ensures
            indices@ == ncm_among(self@.items, self@.selected_items),
    {
        let ghost all = self.selected_items@;
        let mut indices: Vec<usize> = Vec::new();
        assert(all.take(0) == Seq::<usize>::empty());
        for k in 0..self.selected_items.len()
            invariant
                all == self.selected_items@,
                indices@ == ncm_among(self@.items, all.take(k as int)),
        {
            assert(all.take(k + 1).drop_last() == all.take(k as int));
            assert(all.take(k + 1).last() == all[k as int]);
            assert(self@.items.len() == self.items@.len());
            let i: usize = self.selected_items[k];
            if i < self.items.len() && self.items[i].kind == AudioKind::Ncm {
                assert(self@.items[i as int] == self.items@[i as int]@);
                indices.push(i);
            }
        }
        assert(all.take(all.len() as int) == all);
        indices
    }

    /// The job of a batch of those items.
    fn make_job(&self, indices: Vec<usize>) -> (job: Job)
        requires
            forall|k: int| 0 <= k < indices@.len() ==> (#[trigger] indices@[k]) < self.items@.len(),
        ensures
            job@ == self@.job(indices@, job.output_dir@),
            job.output_dir@.text == self@.settings.output,
    {
        let items = pick_items(&self.items, &indices);
        let output_dir = FilePath::new(self.settings.output.clone());
        assert(items_view(items@) == self@.job(indices@, output_dir@).items);
        Job {
            items,
            indices,
            ncmdump: copy_path_opt(&self.ncmdump),
            output_dir,
            separators: copy_configs(&self.separators),
            separator: self.settings.separator.clone(),
            model: self.settings.model.clone(),
            mode: self.settings.mode.clone(),
            device: self.settings.device.clone(),
            demucs_base: copy_texts(&self.demucs_command),
        }
    }

    /// Begins the separation of the selected items, unless a task runs or
    /// nothing is selected.
    pub fn separate_selected(&mut self) -> (start: Start)
        requires
            old(self)@.valid(),
        ensures
            final(self)@.valid(),
            ({
                let before = old(self)@;
                if before.running {
                    final(self)@ == before.saying("已有任务正在运行"@) && !start.save && start.job
                        is None
                } else if before.selected_items.len() == 0 {
                    final(self)@ == before.saying("请先选择音频"@) && !start.save && start.job
                        is None
                } else {
                    final(self)@ == before.begun() && start.save && is_job(
                        start.job,
                        before,
                        before.selected_items,
                    )
                }
            }),
    {
        if self.running {
            self.status = "已有任务正在运行".to_string();
            return Start { save: false, job: None };
        }
        let indices = self.selected_audio_indices();
        if indices.len() == 0 {
            self.status = "请先选择音频".to_string();
            return Start { save: false, job: None };
        }
        assert(self@.items.len() == self.items@.len());
        assert forall|k: int| 0 <= k < indices@.len() implies (#[trigger] indices@[k])
            < self.items@.len() by {
            assert(self@.selected_items[k] < self@.items.len());
        }
        let job = self.make_job(indices);
        self.running = true;
        self.progress = None;
        Start { save: true, job: Some(job) }
    }

    /// Begins the conversion of the selected NCM files, unless a task runs,
    /// none is selected, or there is no tool for it. The settings are saved
    /// once it is clear that there is something to convert.
    pub fn convert_ncm_selected(&mut self) -> (start: Start)
        requires
            old(self)@.valid(),
        ensures
            final(self)@.valid(),
            ({
                let before = old(self)@;
                let indices = ncm_among(before.items, before.selected_items);
                if before.running {
                    final(self)@ == before.saying("已有任务正在运行"@) && !start.save && start.job
                        is None
                } else if indices.len() == 0 {
                    final(self)@ == before.saying("选中项中没有 NCM 文件"@) && !start.save
                        && start.job is None
                } else if before.ncmdump is None {
                    final(self)@ == before.saying("未找到 ncmdump"@) && start.save && start.job
                        is None
                } else {
                    final(self)@ == before.begun() && start.save && is_job(
                        start.job,
                        before,
                        indices,
                    )
                }
            }),
    {
        if self.running {
            self.status = "已有任务正在运行".to_string();
            return Start { save: false, job: None };
        }
        let indices = self.selected_ncm_indices();
        if indices.len() == 0 {
            self.status = "选中项中没有 NCM 文件".to_string();
            return Start { save: false, job: None };
        }
        if self.ncmdump.is_none() {
            self.status = "未找到 ncmdump".to_string();
            return Start { save: true, job: None };
        }
        proof {
            law_ncm_selected(self@.items, self@.selected_items);
            assert(self@.items.len() == self.items@.len());
        }
        let job = self.make_job(indices);
        self.running = true;
        self.progress = None;
        Start { save: true, job: Some(job) }
    }

    /// Asks the task to stop.
    pub fn stop_task(&mut self)
        ensures
            final(self)@ == (StudioView { running: false, ..old(self)@ }).saying(
                "已请求停止任务"@,
            ),
    {
        self.running = false;
        self.status = "已请求停止任务".to_string();
    }

    /// Takes in one message of the task.
    fn take_message(&mut self, message: TaskMessage)
        requires
            old(self)@.valid(),
        ensures
            final(self)@ == old(self)@.told(message@),
            final(self)@.valid(),
    {
        let ghost before = self@;
        match message {
            TaskMessage::Log(_) => {},
            TaskMessage::Progress(m) => {
                self.progress = Some(m);
            },
            TaskMessage::Status(s) => {
                self.status = s;
            },
            TaskMessage::InputStatus(i, status, path) => {
                assert(self@.items.len() == self.items@.len());
                if i < self.items.len() {
                    assert(self@.items[i as int] == self.items@[i as int]@);
                    let process_path = match path {
                        Some(p) => Some(p),
                        None => copy_path_opt(&self.items[i].process_path),
                    };
                    let item = AudioItem {
                        path: self.items[i].path.clone(),
                        status,
                        process_path,
                        kind: self.items[i].kind,
                    };
                    self.items.set(i, item);
                    assert(self@.items == before.items.update(i as int, item@));
                }
            },
            TaskMessage::Done => {},
        }
    }

    /// Takes in the messages of the task, `gone` meaning that it will send no
    /// more. Says whether the task is over: then the output directory is to
    /// be scanned and the stems of the listed audio to be stamped.
    pub fn pump_task_messages(&mut self, messages: Vec<TaskMessage>, gone: bool) -> (over: bool)
        requires
            old(self)@.valid(),
        ensures
            over == (gone || says_done(messages_view(messages@))),
            final(self)@ == ({
                let after = old(self)@.told_all(messages_view(messages@));
                StudioView { running: after.running && !over, ..after }
            }),
            final(self)@.valid(),
    {
        let ghost before = self@;
        let ghost all = messages_view(messages@);
        let mut over: bool = gone;
        let mut rest = messages;
        let mut queue: Vec<TaskMessage> = Vec::new();
        // the last message first, so that each can be taken from the end
        while rest.len() > 0
            invariant
                messages_view(rest@) + messages_view(queue@).reverse() == all,
            decreases rest@.len(),
        {
            let ghost r = messages_view(rest@);
            let ghost q = messages_view(queue@);
            let m = rest.pop().unwrap();
            let ghost last = m@;
            queue.push(m);
            assert(messages_view(rest@) == r.drop_last());
            assert(messages_view(queue@) == q.push(last));
            assert(r == r.drop_last().push(last));
            assert(r.drop_last() + q.push(last).reverse() == r + q.reverse());
        }
        assert(messages_view(rest@) == Seq::<MessageView>::empty());
        assert(messages_view(queue@).reverse() == all);
        let n: usize = queue.len();
        assert(all.len() == n);
        let mut k: usize = 0;
        assert(all.take(0) == Seq::<MessageView>::empty());
        while k < n
            invariant
                k <= n,
                n == all.len(),
                queue@.len() == n - k,
                messages_view(queue@).reverse() == all.skip(k as int),
                self@ == before.told_all(all.take(k as int)),
                self@.valid(),
                over == (gone || exists|i: int| 0 <= i < k && (#[trigger] all[i]) is Done),
            decreases n - k,
        {
            let ghost q = messages_view(queue@);
            let m = queue.pop().unwrap();
            assert(messages_view(queue@) == q.drop_last());
            assert(q.last() == m@);
            assert(q.reverse()[0] == q.last());
            assert(all.skip(k as int)[0] == all[k as int]);
            assert(q.drop_last().reverse() == q.reverse().skip(1));
            assert(all.skip(k as int).skip(1) == all.skip(k + 1));
            assert(all.take(k + 1).drop_last() == all.take(k as int));
            assert(all.take(k + 1).last() == all[k as int]);
            if let TaskMessage::Done = &m {
                over = true;
                assert(all[k as int] is Done);
            }
            self.take_message(m);
            k = k + 1;
        }
        assert(all.take(n as int) == all);
        if over {
            self.running = false;
        }
        over
    }

    /// The audio of the listed items, whose metadata their stems get.
    pub fn listed_audio(&self) -> (paths: Vec<FilePath>)
        ensures
            paths_view(paths@) == audio_of(self@.items),
    {
        let ghost all = items_view(self.items@);
        let mut paths: Vec<FilePath> = Vec::new();
        assert(all.take(0) == Seq::<ItemView>::empty());
        assert(paths_view(paths@) == Seq::<PathView>::empty());
        for i in 0..self.items.len()
            invariant
                all == items_view(self.items@),
                paths_view(paths@) == audio_of(all.take(i as int)),
        {
            assert(all.take(i + 1).drop_last() == all.take(i as int));
            assert(all.take(i + 1).last() == self.items@[i as int]@);
            if let Some(p) = &self.items[i].process_path {
                let q = p.clone();
                let ghost before = paths_view(paths@);
                paths.push(q);
                assert(paths_view(paths@) == before.push(q@));
            }
        }
        assert(all.take(all.len() as int) == all);
        paths
    }

    /// The audio of the selected item, the first if there are several. If there
    /// is none, the window says so.
    pub fn play_selected_input(&mut self) -> (path: Option<FilePath>)
        requires
            old(self)@.valid(),
        ensures
            final(self)@.valid(),
            path_opt(path) == (if old(self)@.selected_items.len() > 0 {
                old(self)@.items[old(self)@.selected_items[0] as int].process_path
            } else {
                None
            }),
            final(self)@ == (if path is Some {
                old(self)@
            } else {
                old(self)@.saying("请先选择输入音频"@)
            }),
    {
        let mut path: Option<FilePath> = None;
        if self.selected_items.len() > 0 {
            assert(self@.selected_items[0] < self@.items.len());
            assert(self@.items.len() == self.items@.len());
            let i: usize = self.selected_items[0];
            assert(self@.items[i as int] == self.items@[i as int]@);
            path = copy_path_opt(&self.items[i].process_path);
        }
        if path.is_none() {
            self.status = "请先选择输入音频".to_string();
        }
        path
    }

    /// Whether the output directory is to be scanned before a stem is played:
    /// when no stem is listed.
    pub fn wants_stems(&self) -> (yes: bool)
        ensures
            yes == (self@.stems.len() == 0),
    {
        assert(self@.stems.len() == self.stems@.len());
        self.stems.len() == 0
    }

    /// The path of the selected stem. If none is selected, the window says so,
    /// and how many there are.
    pub fn play_selected_stem(&mut self) -> (path: Option<FilePath>)
        requires
            old(self)@.valid(),
        ensures
            final(self)@.valid(),
            match old(self)@.selected_stem {
                Some(i) => path_opt(path) == Some(old(self)@.stems[i as int].path) && final(self)@
                    == old(self)@,
                None => path is None && final(self)@ == old(self)@.saying(
                    if old(self)@.stems.len() == 0 {
                        "未找到输出音轨，请先分离或检查输出目录"@
                    } else {
                        "请先在右侧选择输出音轨；已找到 "@ + decimal(old(self)@.stems.len())
                            + " 个"@
                    },
                ),
            },
    {
        assert(self@.stems.len() == self.stems@.len());
        match self.selected_stem {
            Some(i) => {
                assert(self@.stems[i as int] == self.stems@[i as int]@);
                Some(self.stems[i].path.clone())
            },
            None => {
                if self.stems.len() == 0 {
                    self.status = "未找到输出音轨，请先分离或检查输出目录".to_string();
                } else {
                    let mut text = "请先在右侧选择输出音轨；已找到 ".to_string();
                    push_decimal(&mut text, self.stems.len() as u64);
                    text.append(" 个");
                    self.status = text;
                }
                None
            },
        }
    }

    /// Stops the player.
    pub fn stop_playback(&mut self)
        ensures
            final(self)@ == (StudioView { player: silent(), ..old(self)@ }),
    {
        self.player = Player::new();
    }

    /// Pauses the player or goes on; a player that plays nothing does neither.
    pub fn pause_resume(&mut self) -> (sound: Option<Sound>)
        ensures
            ({
                let before = old(self)@;
                if !before.player.active {
                    sound is None && final(self)@ == before
                } else if before.player.paused {
                    sound == Some(Sound::Resume) && final(self)@ == (StudioView {
                        player: PlayerView { paused: false, ..before.player },
                        ..before
                    }).saying("播放中"@)
                } else {
                    sound == Some(Sound::Pause) && final(self)@ == (StudioView {
                        player: PlayerView { paused: true, ..before.player },
                        ..before
                    }).saying("已暂停"@)
                }
            }),
    {
        if !self.player.active {
            return None;
        }
        if self.player.paused {
            self.player.paused = false;
            self.status = "播放中".to_string();
            Some(Sound::Resume)
        } else {
            self.player.paused = true;
            self.status = "已暂停".to_string();
            Some(Sound::Pause)
        }
    }

    /// Takes in what came of starting to play a file. The player was stopped
    /// before.
    pub fn play_audio(&mut self, path: &FilePath, outcome: PlayOutcome)
        ensures
            final(self)@ == (match outcome {
                PlayOutcome::Failed => (StudioView { player: silent(), ..old(self)@ }).saying(
                    "播放失败"@,
                ),
                PlayOutcome::Started(duration) => (StudioView {
                    player: playing(path@, duration),
                    ..old(self)@
                }).saying("播放中"@),
            }),
    {
        match outcome {
            PlayOutcome::Failed => {
                self.player = Player::new();
                self.status = "播放失败".to_string();
            },
            PlayOutcome::Started(duration) => {
                let mut now_playing = "正在播放: ".to_string();
                now_playing.append(path.name().as_str());
                self.player = Player {
                    active: true,
                    paused: false,
                    now_playing,
                    path: Some(path.clone()),
                    duration,
                    offset: 0,
                };
                self.status = "播放中".to_string();
            },
        }
    }

    /// Takes in what came of going to another place in the file. Nothing
    /// happens while no file is played.
    pub fn seek_playback(&mut self, target: u128, outcome: SeekOutcome)
        ensures
            final(self)@ == ({
                let before = old(self)@;
                if before.player.path is None {
                    before
                } else {
                    match outcome {
                        SeekOutcome::Moved => StudioView {
                            player: PlayerView { offset: 0, ..before.player },
                            ..before
                        },
                        SeekOutcome::NoFile => before.saying("跳转失败：无法打开音频"@),
                        SeekOutcome::NotAudio => before.saying("跳转失败：无法解码音频"@),
                        SeekOutcome::NoDevice => before.saying("跳转失败：没有音频输出设备"@),
                        SeekOutcome::NoPlayer => before.saying("跳转失败：无法创建播放器"@),
                        SeekOutcome::Restarted => StudioView {
                            player: PlayerView { active: true, offset: target, ..before.player },
                            ..before
                        },
                    }
                }
            }),
    {
        if self.player.path.is_none() {
            return;
        }
        match outcome {
            SeekOutcome::Moved => {
                self.player.offset = 0;
            },
            SeekOutcome::NoFile => {
                self.status = "跳转失败：无法打开音频".to_string();
            },
            SeekOutcome::NotAudio => {
                self.status = "跳转失败：无法解码音频".to_string();
            },
            SeekOutcome::NoDevice => {
                self.status = "跳转失败：没有音频输出设备".to_string();
            },
            SeekOutcome::NoPlayer => {
                self.status = "跳转失败：无法创建播放器".to_string();
            },
            SeekOutcome::Restarted => {
                self.player.active = true;
                self.player.offset = target;
            },
        }
    }

    /// Takes in the lyrics of the track that is played and, if there is one, the
    /// file of its cover, and gives the picture to show.
    pub fn load_media_sidecar(&mut self, sources: &LyricsSources, cover: &Option<CoverFile>) -> (p:
        Option<Pixels>)
        ensures
            pixels_opt(p) == (match *cover {
                Some(c) => cover_picture(c@.path, c@.bytes),
                None => None,
            }),
            p matches Some(q) ==> q@.complete(),
            final(self)@ == old(self)@.with_sidecar(
                *sources,
                match *cover {
                    Some(c) => Some(c@.path),
                    None => None,
                },
                p is Some,
            ),
    {
        let (picture, path) = match cover {
            Some(c) => (load_color_image(c), Some(c.path.clone())),
            None => (None, None),
        };
        self.take_sidecar(sources, &path, picture.is_some());
        picture
    }

    /// Takes in the lyrics and the cover of the track that is played: `cover`
    /// is the file of the cover, `readable` whether it holds a picture.
    pub fn take_sidecar(
        &mut self,
        sources: &LyricsSources,
        cover: &Option<FilePath>,
        readable: bool,
    )
        ensures
            final(self)@ == old(self)@.with_sidecar(*sources, path_opt(*cover), readable),
    {
        let (text, status) = shown_lyrics(sources);
        self.lyrics_text = text;
        self.lyrics_status = status;
        self.cover_status = cover_status(cover, readable);
    }

    /// How many items there are, can be separated and are NCM files, how many
    /// stems there are and how many items are selected, as the window says it.
    pub fn summary(&self) -> (labels: Vec<String>)
        ensures
            texts(labels@) == seq![
                "输入 "@ + decimal(self@.items.len()) + " 个"@,
                "可分离 "@ + decimal(ready_count(self@.items)) + " 个"@,
                "NCM "@ + decimal(ncm_count(self@.items)) + " 个"@,
                "输出音轨 "@ + decimal(self@.stems.len()) + " 个"@,
                "已选 "@ + decimal(self@.selected_items.len()) + " 个"@,
            ],
    {
        let ghost all = items_view(self.items@);
        let mut ready: usize = 0;
        let mut ncm: usize = 0;
        assert(all.take(0) == Seq::<ItemView>::empty());
        for i in 0..self.items.len()
            invariant
                all == items_view(self.items@),
                ready <= i,
                ncm <= i,
                ready == ready_count(all.take(i as int)),
                ncm == ncm_count(all.take(i as int)),
        {
            assert(all.take(i + 1).drop_last() == all.take(i as int));
            assert(all.take(i + 1).last() == self.items@[i as int]@);
            if self.items[i].can_separate() {
                ready = ready + 1;
            }
            if self.items[i].kind == AudioKind::Ncm {
                ncm = ncm + 1;
            }
        }
        assert(all.take(all.len() as int) == all);
        assert(self@.items.len() == self.items@.len());
        assert(self@.stems.len() == self.stems@.len());
        let mut labels: Vec<String> = Vec::new();
        labels.push(labelled("输入 ", self.items.len()));
        labels.push(labelled("可分离 ", ready));
        labels.push(labelled("NCM ", ncm));
        labels.push(labelled("输出音轨 ", self.stems.len()));
        labels.push(labelled("已选 ", self.selected_items.len()));
        assert(texts(labels@) == seq![
            "输入 "@ + decimal(self@.items.len()) + " 个"@,
            "可分离 "@ + decimal(ready_count(self@.items)) + " 个"@,
            "NCM "@ + decimal(ncm_count(self@.items)) + " 个"@,
            "输出音轨 "@ + decimal(self@.stems.len()) + " 个"@,
            "已选 "@ + decimal(self@.selected_items.len()) + " 个"@,
        ]);
        labels
    }
}

/// A count behind its label.
fn labelled(label: &str, n: usize) -> (text: String)
    ensures
        text@ == label@ + decimal(n as nat) + " 个"@,
{
    let mut text = label.to_owned();
    push_decimal(&mut text, n as u64);
    text.append(" 个");
    text
}

// ---------------------------------------------------------------------------
// Laws
// ---------------------------------------------------------------------------

/// What a batch of conversions works on are listed NCM files, all of them
/// selected.
pub proof fn law_ncm_selected(items: Seq<ItemView>, selected: Seq<usize>)
    ensures
        ncm_among(items, selected).len() <= selected.len(),
        forall|k: int|
            0 <= k < ncm_among(items, selected).len() ==> {
                let i = #[trigger] ncm_among(items, selected)[k];
                i < items.len() && items[i as int].kind == AudioKind::Ncm && selected.contains(i)
            },
    decreases selected.len(),
{
    if selected.len() > 0 {
        let rest = selected.drop_last();
        law_ncm_selected(items, rest);
        let out = ncm_among(items, selected);
        assert forall|k: int| 0 <= k < out.len() implies {
            let i = #[trigger] out[k];
            i < items.len() && items[i as int].kind == AudioKind::Ncm && selected.contains(i)
        } by {
            if k < ncm_among(items, rest).len() {
                let i = ncm_among(items, rest)[k];
                assert(out[k] == i);
                let m = choose|m: int| 0 <= m < rest.len() && rest[m] == i;
                assert(selected[m] == i);
            } else {
                assert(selected[selected.len() - 1] == out[k]);
            }
        }
    }
}

/// Pressing twice on an item that is not selected leaves nothing selected.
pub proof fn law_toggle_twice(selected: Seq<usize>, i: usize)
    requires
        !selected.contains(i),
    ensures
        toggled(toggled(selected, i), i) == Seq::<usize>::empty(),
{
    assert(seq![i][0] == i);
    assert(seq![i].drop_last() == Seq::<usize>::empty());
    assert(without(seq![i].drop_last(), i) == Seq::<usize>::empty());
}

/// As long as items are only pressed on, at most one is selected.
pub proof fn law_one_selected(selected: Seq<usize>, i: usize)
    requires
        selected.len() <= 1,
    ensures
        toggled(selected, i).len() <= 1,
{
    if selected.contains(i) {
        let rest = selected.drop_last();
        assert(rest == Seq::<usize>::empty());
        assert(without(rest, i) == Seq::<usize>::empty());
    }
}

/// A job that the window begins has an index for each of its items, so that
/// its batches go through all of them, and the items are those of the list.
pub proof fn law_job_paired(studio: StudioView, indices: Seq<usize>, output_dir: PathView, k: int)
    ensures
        studio.job(indices, output_dir).items.len() == indices.len(),
        rounds(studio.job(indices, output_dir)) == indices.len(),
        0 <= k < indices.len() ==> studio.job(indices, output_dir).items[k]
            == studio.items[indices[k] as int],
{
}

/// Messages change only the progress, the status and the items; they neither
/// add nor remove items, nor change what files they are.
pub proof fn law_messages_keep_items(studio: StudioView, messages: Seq<MessageView>, i: int)
    ensures
        ({
            let after = studio.told_all(messages);
            &&& after.items.len() == studio.items.len()
            &&& 0 <= i < studio.items.len() ==> after.items[i].path == studio.items[i].path
                && after.items[i].kind == studio.items[i].kind
            &&& after == (StudioView {
                items: after.items,
                progress: after.progress,
                status: after.status,
                ..studio
            })
        }),
    decreases messages.len(),
{
    if messages.len() > 0 {
        law_messages_keep_items(studio, messages.drop_last(), i);
    }
}

/// Taking in messages in two goes is the same as taking them in at once.
pub proof fn law_messages_in_pieces(
    studio: StudioView,
    a: Seq<MessageView>,
    b: Seq<MessageView>,
)
    ensures
        studio.told_all(a + b) == studio.told_all(a).told_all(b),
    decreases b.len(),
{
    if b.len() == 0 {
        assert(a + b == a);
    } else {
        assert((a + b).drop_last() == a + b.drop_last());
        law_messages_in_pieces(studio, a, b.drop_last());
    }
}

} // verus!
