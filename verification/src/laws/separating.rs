//! Separation: the commands that are run, in which order, for which files, and
//! what is done with their results.

use crate::batch::{ActionView, BatchView, EndView, EventView, JobView, StageView};
use crate::command::{filled_args, law_demucs_arguments, law_replace_whole};
use crate::config::{named_config, ConfigView};
use crate::media::AudioKind;
use crate::path::PathView;
use crate::pattern::{find, lemma_find, occurs_at, occurs_in};
use crate::separation::separation_step;
use crate::window_batch::{demucs_step, ncm_step, rounds};
use vstd::prelude::*;

verus! {

/// Whether a text stands nowhere in another.
pub open spec fn free_of(s: Seq<char>, pat: Seq<char>) -> bool {
    forall|i: int|
        0 <= i && i + pat.len() <= s.len() ==> #[trigger] s.subrange(i, i + pat.len()) != pat
}

/// A text that stands nowhere in another is not found there.
pub proof fn lemma_free(s: Seq<char>, pat: Seq<char>)
    requires
        free_of(s, pat),
    ensures
        !occurs_in(s, pat),
{
    lemma_find(s, pat);
    if let Some(i) = find(s, pat) {
        assert(occurs_at(s, pat, i as int));
        assert(s.subrange(i as int, (i + pat.len()) as int) == pat);
    }
}

/// Whether the separator of a job is the one with that index: the first that
/// has the chosen name.
pub open spec fn chosen(job: JobView, k: int) -> bool {
    &&& 0 <= k < job.separators.len()
    &&& job.separators[k].name == job.separator
    &&& forall|j: int| 0 <= j < k ==> (#[trigger] job.separators[j]).name != job.separator
}

/// The first separator of a name is the one that is found under it.
proof fn lemma_chosen(configs: Seq<ConfigView>, name: Seq<char>, k: int)
    requires
        0 <= k < configs.len(),
        configs[k].name == name,
        forall|j: int| 0 <= j < k ==> (#[trigger] configs[j]).name != name,
    ensures
        named_config(configs, name) == Some(configs[k]),
    decreases configs.len(),
{
    if k > 0 {
        assert(configs[0].name != name);
        let rest = configs.skip(1);
        assert forall|j: int| 0 <= j < k - 1 implies (#[trigger] rest[j]).name != name by {
            assert(rest[j] == configs[j + 1]);
        }
        lemma_chosen(rest, name, k - 1);
    }
}

/// No separator of a name is found if none has it.
proof fn lemma_none_chosen(configs: Seq<ConfigView>, name: Seq<char>)
    requires
        forall|j: int| 0 <= j < configs.len() ==> (#[trigger] configs[j]).name != name,
    ensures
        named_config(configs, name) is None,
    decreases configs.len(),
{
    if configs.len() > 0 {
        assert(configs[0].name != name);
        let rest = configs.skip(1);
        assert forall|j: int| 0 <= j < rest.len() implies (#[trigger] rest[j]).name != name by {
            assert(rest[j] == configs[j + 1]);
        }
        lemma_none_chosen(rest, name);
    }
}

/// A file is separated by the separator of the chosen name, the first one of
/// it: its program and its arguments, with the model and the output directory
/// of the job in their places; its flag for two stems exactly if it has one and
/// the mode is `vocals`; its flag for a device, and the device, exactly if it
/// has one and the device is not `auto`; and the audio. So do both batches,
/// whatever led to the separation.
pub proof fn law_separates_as_configured(job: JobView, b: BatchView, event: EventView, k: int)
    requires
        b.awaits(event),
        chosen(job, k),
        free_of(job.model, "{output}"@),
        forall|i: int|
            0 <= i < job.separators[k].args_before.len() ==> ({
                let arg = #[trigger] job.separators[k].args_before[i];
                arg == "{model}"@ || arg == "{output}"@ || (free_of(arg, "{model}"@) && free_of(
                    arg,
                    "{output}"@,
                ))
            }),
    ensures
        ({
            let cfg = job.separators[k];
            let n = cfg.args_before.len();
            let wanted = |audio: Seq<char>|
                cfg.command + Seq::new(
                    n,
                    |i: int|
                        if cfg.args_before[i] == "{model}"@ {
                            job.model
                        } else if cfg.args_before[i] == "{output}"@ {
                            job.output_dir.text
                        } else {
                            cfg.args_before[i]
                        },
                ) + (if cfg.stems_mode == "flag"@ && job.mode == "vocals"@ && cfg.two_stem_flag
                    != ""@ {
                    seq![cfg.two_stem_flag]
                } else {
                    Seq::empty()
                }) + (if job.device != "auto"@ && cfg.device_flag != ""@ {
                    seq![cfg.device_flag, job.device]
                } else {
                    Seq::empty()
                }) + seq![audio];
            let (one, one_says) = separation_step(job, b, event);
            let (two, two_says) = demucs_step(job, b, event);
            &&& one_says.action matches ActionView::Separate { cmd, .. } ==> one.stage is Separating
                && cmd == wanted((one.stage->Separating_0).text)
            &&& two_says.action matches ActionView::Separate { cmd, .. } ==> two.stage is Separating
                && cmd == wanted((two.stage->Separating_0).text)
        }),
{
    let cfg = job.separators[k];
    lemma_chosen(job.separators, job.separator, k);
    lemma_free(job.model, "{output}"@);
    reveal_strlit("");
    reveal_strlit("{model}");
    reveal_strlit("{output}");
    let args = Seq::new(
        cfg.args_before.len(),
        |i: int|
            if cfg.args_before[i] == "{model}"@ {
                job.model
            } else if cfg.args_before[i] == "{output}"@ {
                job.output_dir.text
            } else {
                cfg.args_before[i]
            },
    );
    let filled = filled_args(cfg.args_before, job.model, job.output_dir.text);
    assert forall|i: int| 0 <= i < filled.len() implies #[trigger] filled[i] == args[i] by {
        let arg = cfg.args_before[i];
        lemma_placeholders();
        if arg == "{model}"@ {
            law_replace_whole("{model}"@, job.model, "-"@);
            law_replace_whole("{output}"@, job.output_dir.text, job.model);
        } else if arg == "{output}"@ {
            law_replace_whole("{model}"@, job.model, "{output}"@);
            law_replace_whole("{output}"@, job.output_dir.text, "-"@);
        } else {
            lemma_free(arg, "{model}"@);
            lemma_free(arg, "{output}"@);
            law_replace_whole("{model}"@, job.model, arg);
            law_replace_whole("{output}"@, job.output_dir.text, arg);
        }
    }
    assert(filled == args);
    assert(cfg.two_stem_flag == ""@ <==> cfg.two_stem_flag.len() == 0) by {
        if cfg.two_stem_flag.len() == 0 {
            assert(cfg.two_stem_flag == ""@);
        }
    }
    assert(cfg.device_flag == ""@ <==> cfg.device_flag.len() == 0) by {
        if cfg.device_flag.len() == 0 {
            assert(cfg.device_flag == ""@);
        }
    }
}

/// Neither placeholder stands in a dash, nor one in the other.
proof fn lemma_placeholders()
    ensures
        !occurs_in("-"@, "{model}"@),
        !occurs_in("-"@, "{output}"@),
        !occurs_in("{output}"@, "{model}"@),
{
    reveal_strlit("-");
    reveal_strlit("{model}");
    reveal_strlit("{output}");
    let s = "{output}"@;
    let p = "{model}"@;
    assert forall|i: int| 0 <= i && i + p.len() <= s.len() implies #[trigger] s.subrange(
        i,
        i + p.len(),
    ) != p by {
        let t = s.subrange(i, i + p.len());
        assert(t[0] == s[i] && t[1] == s[i + 1]);
    }
    lemma_free(s, p);
}

/// Without any configuration a file is separated by Demucs, run by Python, with
/// the model, the output directory, the mode and the device of the job: two
/// stems are asked for exactly if the mode is `vocals`, and a device exactly if
/// it is not `auto`. So do both batches, whatever led to the separation.
pub proof fn law_separates_with_demucs(job: JobView, b: BatchView, event: EventView, k: int)
    requires
        b.awaits(event),
        chosen(job, k),
        job.separators[k].command == seq!["python"@, "-m"@, "demucs"@],
        job.separators[k].args_before == seq!["-n"@, "{model}"@, "-o"@, "{output}"@],
        job.separators[k].two_stem_flag == "--two-stems=vocals"@,
        job.separators[k].device_flag == "-d"@,
        job.separators[k].stems_mode == "flag"@,
        free_of(job.model, "{output}"@),
    ensures
        ({
            let wanted = |audio: Seq<char>|
                seq![
                    "python"@,
                    "-m"@,
                    "demucs"@,
                    "-n"@,
                    job.model,
                    "-o"@,
                    job.output_dir.text,
                ] + (if job.mode == "vocals"@ {
                    seq!["--two-stems=vocals"@]
                } else {
                    Seq::empty()
                }) + (if job.device != "auto"@ {
                    seq!["-d"@, job.device]
                } else {
                    Seq::empty()
                }) + seq![audio];
            let (one, one_says) = separation_step(job, b, event);
            let (two, two_says) = demucs_step(job, b, event);
            &&& one_says.action matches ActionView::Separate { cmd, .. } ==> one.stage is Separating
                && cmd == wanted((one.stage->Separating_0).text)
            &&& two_says.action matches ActionView::Separate { cmd, .. } ==> two.stage is Separating
                && cmd == wanted((two.stage->Separating_0).text)
        }),
{
    lemma_chosen(job.separators, job.separator, k);
    lemma_free(job.model, "{output}"@);
    let one = (separation_step(job, b, event).0.stage->Separating_0).text;
    law_demucs_arguments(job.output_dir.text, one, job.model, job.mode, job.device);
    let two = (demucs_step(job, b, event).0.stage->Separating_0).text;
    law_demucs_arguments(job.output_dir.text, two, job.model, job.mode, job.device);
}

/// Where no separator has the chosen name, Demucs is started by the command
/// that was found for it, with the model, the output directory, the mode and
/// the device of the job; six stems take the model that has them. So do both
/// batches, whatever led to the separation.
pub proof fn law_separates_without_separator(job: JobView, b: BatchView, event: EventView)
    requires
        b.awaits(event),
        forall|j: int|
            0 <= j < job.separators.len() ==> (#[trigger] job.separators[j]).name != job.separator,
    ensures
        ({
            let wanted = |audio: Seq<char>|
                job.demucs_base + seq![
                    "-n"@,
                    if job.mode == "six_stems"@ {
                        "htdemucs_6s"@
                    } else {
                        job.model
                    },
                    "-o"@,
                    job.output_dir.text,
                ] + (if job.mode == "vocals"@ {
                    seq!["--two-stems=vocals"@]
                } else {
                    Seq::empty()
                }) + (if job.device != "auto"@ {
                    seq!["-d"@, job.device]
                } else {
                    Seq::empty()
                }) + seq![audio];
            let (one, one_says) = separation_step(job, b, event);
            let (two, two_says) = demucs_step(job, b, event);
            &&& one_says.action matches ActionView::Separate { cmd, .. } ==> one.stage is Separating
                && cmd == wanted((one.stage->Separating_0).text)
            &&& two_says.action matches ActionView::Separate { cmd, .. } ==> two.stage is Separating
                && cmd == wanted((two.stage->Separating_0).text)
        }),
{
    lemma_none_chosen(job.separators, job.separator);
    reveal_strlit("-d");
}

/// The directory of a file as a text, the working directory if it has none.
pub open spec fn directory_text(path: PathView) -> Seq<char> {
    match path.parent {
        Some(dir) => dir,
        None => "."@,
    }
}

/// What is done for a file, one action after the other: audio is separated as
/// it stands; an NCM file without audio is first converted by ncmdump into its
/// own directory, and what came of that is separated; a file for which there is
/// nothing to separate, and no tool to convert it, is passed over and not
/// counted. Once a separation ended, it is counted as it ended, and the stems
/// get the metadata of the audio that was separated; after a separation that
/// could not be started, and after the last file, and once it was stopped, a
/// batch is over.
pub proof fn law_separation_flow(job: JobView, b: BatchView, event: EventView)
    requires
        b.valid(job.items.len()),
        b.awaits(event),
    ensures
        ({
            let (after, reply) = separation_step(job, b, event);
            let item = job.items[b.next as int];
            match event {
                EventView::Running(running) => if !running || b.next == job.items.len() {
                    &&& reply.action is Finish
                    &&& after == (BatchView { stage: StageView::Over, ..b })
                } else if item.process_path is Some {
                    &&& reply.action is Separate
                    &&& after == (BatchView {
                        stage: StageView::Separating(item.process_path->0),
                        ..b
                    })
                } else if item.kind == AudioKind::Ncm && job.ncmdump is Some {
                    &&& reply.action == (ActionView::Convert {
                        cmd: seq![
                            (job.ncmdump->0).text,
                            "-o"@,
                            directory_text(item.path),
                            item.path.text,
                        ],
                        ncm: item.path,
                        out_dir: directory_text(item.path),
                        scope: None,
                    })
                    &&& after == (BatchView { stage: StageView::Converting, ..b })
                } else {
                    &&& reply.action is Ask
                    &&& after == (BatchView { next: b.next + 1, stage: StageView::Ready, ..b })
                },
                EventView::Converted(Ok(audio)) => {
                    &&& reply.action is Separate
                    &&& after == (BatchView { stage: StageView::Separating(audio), ..b })
                },
                EventView::Converted(Err(_)) => {
                    &&& reply.action is Ask
                    &&& after == (BatchView {
                        next: b.next + 1,
                        fail: b.fail + 1,
                        stage: StageView::Ready,
                        ..b
                    })
                },
                EventView::Separated(EndView::NotRun(_)) => {
                    &&& reply.action is Finish
                    &&& after == (BatchView {
                        next: b.next + 1,
                        fail: b.fail + 1,
                        stage: StageView::Over,
                        ..b
                    })
                },
                EventView::Separated(EndView::Exited(exit)) => {
                    &&& reply.action == ActionView::Stamp(b.stage->Separating_0)
                    &&& after == (if exit.success {
                        BatchView { ok: b.ok + 1, stage: StageView::Stamping, ..b }
                    } else {
                        BatchView { fail: b.fail + 1, stage: StageView::Stamping, ..b }
                    })
                },
                EventView::Stamped(_) => {
                    &&& reply.action is Ask
                    &&& after == (BatchView { next: b.next + 1, stage: StageView::Ready, ..b })
                },
            }
        }),
{
}

/// The stems get the metadata of the audio that they were separated from: once
/// the command that a batch asked for has ended, it asks to stamp the file at
/// the end of that command, which is what the file was converted to or, if it
/// was not converted, its audio.
pub proof fn law_stamps_what_was_separated(
    job: JobView,
    b: BatchView,
    event: EventView,
    end: EventView,
)
    requires
        b.valid(job.items.len()),
        b.awaits(event),
        separation_step(job, b, event).1.action is Separate,
        end matches EventView::Separated(EndView::Exited(_)),
    ensures
        ({
            let (waiting, asked) = separation_step(job, b, event);
            let answer = separation_step(job, waiting, end).1.action;
            &&& waiting.awaits(end)
            &&& answer is Stamp
            &&& asked.action->Separate_cmd.last() == (answer->Stamp_0).text
            &&& match event {
                EventView::Converted(Ok(p)) => answer == ActionView::Stamp(p),
                _ => job.items[b.next as int].process_path == Some(answer->Stamp_0),
            }
        }),
{
    crate::separation::law_separates_audio(job, b, event);
}

/// A step of any batch that stamps, stamps what it had separated.
pub proof fn law_stamp_is_audio(job: JobView, b: BatchView, event: EventView)
    requires
        b.awaits(event),
    ensures
        separation_step(job, b, event).1.action matches ActionView::Stamp(p) ==> b.stage
            == StageView::Separating(p),
{
}

/// What the window's batch of separations does for a file, one action after the
/// other: as without a window, but that no metadata is stamped in between.
pub proof fn law_demucs_flow(job: JobView, b: BatchView, event: EventView)
    requires
        b.valid(rounds(job)),
        b.awaits(event),
        !(event is Stamped),
    ensures
        ({
            let (after, reply) = demucs_step(job, b, event);
            let item = job.items[b.next as int];
            match event {
                EventView::Running(running) => if !running || b.next == job.items.len() || b.next
                    == job.indices.len() {
                    &&& reply.action is Finish
                    &&& after == (BatchView { stage: StageView::Over, ..b })
                } else if item.process_path is Some {
                    &&& reply.action is Separate
                    &&& after == (BatchView {
                        stage: StageView::Separating(item.process_path->0),
                        ..b
                    })
                } else if item.kind == AudioKind::Ncm && job.ncmdump is Some {
                    &&& reply.action is Convert
                    &&& reply.action->Convert_cmd == seq![
                        (job.ncmdump->0).text,
                        "-o"@,
                        directory_text(item.path),
                        item.path.text,
                    ]
                    &&& reply.action->Convert_ncm == item.path
                    &&& reply.action->Convert_out_dir == directory_text(item.path)
                    &&& after == (BatchView { stage: StageView::Converting, ..b })
                } else {
                    &&& reply.action is Ask
                    &&& after == (BatchView { next: b.next + 1, stage: StageView::Ready, ..b })
                },
                EventView::Converted(Ok(audio)) => {
                    &&& reply.action is Separate
                    &&& after == (BatchView { stage: StageView::Separating(audio), ..b })
                },
                EventView::Converted(Err(_)) => {
                    &&& reply.action is Ask
                    &&& after == (BatchView {
                        next: b.next + 1,
                        fail: b.fail + 1,
                        stage: StageView::Ready,
                        ..b
                    })
                },
                EventView::Separated(EndView::NotRun(_)) => {
                    &&& reply.action is Finish
                    &&& after == (BatchView {
                        next: b.next + 1,
                        fail: b.fail + 1,
                        stage: StageView::Over,
                        ..b
                    })
                },
                EventView::Separated(EndView::Exited(exit)) => {
                    &&& reply.action is Ask
                    &&& after == (if exit.success {
                        BatchView { next: b.next + 1, ok: b.ok + 1, stage: StageView::Ready, ..b }
                    } else {
                        BatchView {
                            next: b.next + 1,
                            fail: b.fail + 1,
                            stage: StageView::Ready,
                            ..b
                        }
                    })
                },
                EventView::Stamped(_) => true,
            }
        }),
{
}

/// What the window's batch of conversions does: each file is converted by
/// ncmdump into its own directory and counted as that ended; after the last
/// file, and once it was stopped, the batch is over.
pub proof fn law_ncm_flow(job: JobView, tool: PathView, b: BatchView, event: EventView)
    requires
        b.valid(rounds(job)),
        b.awaits(event),
        event is Running || event is Converted,
    ensures
        ({
            let (after, reply) = ncm_step(job, tool, b, event);
            let item = job.items[b.next as int];
            match event {
                EventView::Running(running) => if !running || b.next == job.items.len() || b.next
                    == job.indices.len() {
                    &&& reply.action is Finish
                    &&& after == (BatchView { stage: StageView::Over, ..b })
                } else {
                    &&& reply.action is Convert
                    &&& reply.action->Convert_cmd == seq![
                        tool.text,
                        "-o"@,
                        directory_text(item.path),
                        item.path.text,
                    ]
                    &&& reply.action->Convert_ncm == item.path
                    &&& reply.action->Convert_out_dir == directory_text(item.path)
                    &&& after == (BatchView { stage: StageView::Converting, ..b })
                },
                EventView::Converted(Ok(_)) => {
                    &&& reply.action is Ask
                    &&& after == (BatchView {
                        next: b.next + 1,
                        ok: b.ok + 1,
                        stage: StageView::Ready,
                        ..b
                    })
                },
                _ => {
                    &&& reply.action is Ask
                    &&& after == (BatchView {
                        next: b.next + 1,
                        fail: b.fail + 1,
                        stage: StageView::Ready,
                        ..b
                    })
                },
            }
        }),
{
}

} // verus!
