//! What the three batches do when they run: the laws on their steps hold of
//! the functions that take them.

use crate::batch::{Action, Batch, Event, Job, Reply, RunEnd, Stage};
use crate::command::separation_command;
use crate::config::configs_view;
use crate::laws::separating::{free_of, law_separates_with_demucs, law_stamp_is_audio};
use crate::path::FilePath;
use crate::separation::{run_separation, separation_step};
use crate::text::texts;
use crate::window_batch::{demucs_step, ncm_step, run_demucs_batch, run_ncm_convert_batch};
use vstd::prelude::*;

verus! {

/// Whatever a batch is at and is told, running it once is one step of it.
pub proof fn law_runs_are_steps(job: &Job, tool: &FilePath, event: Event)
    ensures
        forall|batch: &mut Batch, reply: Reply| #[trigger]
            call_ensures(run_separation, (job, batch, event), reply) ==> ((*final(batch))@, reply@)
                == separation_step(job@, (*batch)@, event@),
        forall|batch: &mut Batch, reply: Reply| #[trigger]
            call_ensures(run_demucs_batch, (job, batch, event), reply) ==> (
                (*final(batch))@,
                reply@,
            ) == demucs_step(job@, (*batch)@, event@),
        forall|batch: &mut Batch, reply: Reply| #[trigger]
            call_ensures(run_ncm_convert_batch, (job, tool, batch, event), reply) ==> (
                (*final(batch))@,
                reply@,
            ) == ncm_step(job@, tool@, (*batch)@, event@),
        forall|batch: Batch| #[trigger]
            call_ensures(Batch::new, (), batch) ==> batch.next == 0 && batch.ok == 0 && batch.fail
                == 0 && batch.stage is Ready,
{
}

/// A job whose separator is the Demucs that is there without any
/// configuration: every command that either batch answers, whatever it is at
/// and whatever it is told, runs Demucs by Python on the audio that the batch
/// then waits for, with the model and the output directory of the job, for two
/// stems exactly if the job's mode is `vocals`, and on the job's device exactly
/// if that is not `auto`.
pub proof fn law_runs_demucs(job: &Job, event: Event, k: int)
    requires
        0 <= k < job.separators@.len(),
        job.separators@[k].name@ == job.separator@,
        forall|j: int| 0 <= j < k ==> (#[trigger] job.separators@[j]).name@ != job.separator@,
        texts(job.separators@[k].command@) == seq!["python"@, "-m"@, "demucs"@],
        texts(job.separators@[k].args_before@) == seq!["-n"@, "{model}"@, "-o"@, "{output}"@],
        job.separators@[k].two_stem_flag@ == "--two-stems=vocals"@,
        job.separators@[k].device_flag@ == "-d"@,
        job.separators@[k].stems_mode@ == "flag"@,
        free_of(job.model@, "{output}"@),
    ensures
        ({
            let wanted = |audio: Seq<char>|
                seq![
                    "python"@,
                    "-m"@,
                    "demucs"@,
                    "-n"@,
                    job.model@,
                    "-o"@,
                    job.output_dir.text@,
                ] + (if job.mode@ == "vocals"@ {
                    seq!["--two-stems=vocals"@]
                } else {
                    seq![]
                }) + (if job.device@ != "auto"@ {
                    seq!["-d"@, job.device@]
                } else {
                    seq![]
                }) + seq![audio];
            &&& forall|batch: &mut Batch, reply: Reply| #[trigger]
                call_ensures(run_separation, (job, batch, event), reply) && (*batch)@.awaits(
                    event@,
                ) ==> (reply.action matches Action::Separate { cmd, .. } ==> (
                *final(batch)).stage matches Stage::Separating(audio) && texts(cmd@) == wanted(
                    audio.text@,
                ))
            &&& forall|batch: &mut Batch, reply: Reply| #[trigger]
                call_ensures(run_demucs_batch, (job, batch, event), reply) && (*batch)@.awaits(
                    event@,
                ) ==> (reply.action matches Action::Separate { cmd, .. } ==> (
                *final(batch)).stage matches Stage::Separating(audio) && texts(cmd@) == wanted(
                    audio.text@,
                ))
        }),
{
    let all = configs_view(job.separators@);
    assert forall|j: int| 0 <= j < all.len() implies #[trigger] all[j] == job.separators@[j]@ by {}
    assert forall|j: int| 0 <= j < k implies (#[trigger] job@.separators[j]).name
        != job@.separator by {
        assert(job.separators@[j].name@ != job.separator@);
    }
    assert forall|batch: &mut Batch, reply: Reply| #[trigger]
        call_ensures(run_separation, (job, batch, event), reply) && (*batch)@.awaits(
            event@,
        ) implies (reply.action matches Action::Separate { cmd, .. } ==> (
    *final(batch)).stage matches Stage::Separating(audio) && texts(cmd@) == seq![
        "python"@,
        "-m"@,
        "demucs"@,
        "-n"@,
        job.model@,
        "-o"@,
        job.output_dir.text@,
    ] + (if job.mode@ == "vocals"@ {
        seq!["--two-stems=vocals"@]
    } else {
        seq![]
    }) + (if job.device@ != "auto"@ {
        seq!["-d"@, job.device@]
    } else {
        seq![]
    }) + seq![audio.text@]) by {
        law_separates_with_demucs(job@, (*batch)@, event@, k);
    }
    assert forall|batch: &mut Batch, reply: Reply| #[trigger]
        call_ensures(run_demucs_batch, (job, batch, event), reply) && (*batch)@.awaits(
            event@,
        ) implies (reply.action matches Action::Separate { cmd, .. } ==> (
    *final(batch)).stage matches Stage::Separating(audio) && texts(cmd@) == seq![
        "python"@,
        "-m"@,
        "demucs"@,
        "-n"@,
        job.model@,
        "-o"@,
        job.output_dir.text@,
    ] + (if job.mode@ == "vocals"@ {
        seq!["--two-stems=vocals"@]
    } else {
        seq![]
    }) + (if job.device@ != "auto"@ {
        seq!["-d"@, job.device@]
    } else {
        seq![]
    }) + seq![audio.text@]) by {
        law_separates_with_demucs(job@, (*batch)@, event@, k);
    }
}

/// Whatever separator a job has chosen: every command that either batch answers
/// is the one that separates the audio that the batch then waits for with that
/// separator, or with Demucs as it was found, and with the output directory,
/// the model, the mode and the device of the job.
pub proof fn law_runs_separator(
    job: &Job,
    event: Event,
    separator: &str,
    model: &str,
    mode: &str,
    device: &str,
    audio: &FilePath,
    cmd: Vec<String>,
)
    requires
        separator@ == job.separator@,
        model@ == job.model@,
        mode@ == job.mode@,
        device@ == job.device@,
        call_ensures(
            separation_command,
            (
                &job.separators,
                separator,
                &job.demucs_base,
                &job.output_dir,
                audio,
                model,
                mode,
                device,
            ),
            cmd,
        ),
    ensures
        forall|batch: &mut Batch, reply: Reply| #[trigger]
            call_ensures(run_separation, (job, batch, event), reply) && (*batch)@.awaits(event@)
                ==> ((*final(batch)).stage matches Stage::Separating(a) && a@ == audio@ ==> (
            reply.action matches Action::Separate { cmd: c, .. } && texts(c@) == texts(cmd@))),
        forall|batch: &mut Batch, reply: Reply| #[trigger]
            call_ensures(run_demucs_batch, (job, batch, event), reply) && (*batch)@.awaits(event@)
                ==> ((*final(batch)).stage matches Stage::Separating(a) && a@ == audio@ ==> (
            reply.action matches Action::Separate { cmd: c, .. } && texts(c@) == texts(cmd@))),
{
}

/// Whenever a run answers that stems are to be given the metadata of a file,
/// the batch was waiting for the separation of that file, and was told that the
/// program ended.
pub proof fn law_run_stamps(job: &Job, event: Event)
    ensures
        forall|batch: &mut Batch, reply: Reply| #[trigger]
            call_ensures(run_separation, (job, batch, event), reply) && (*batch)@.awaits(event@)
                ==> (reply.action matches Action::Stamp(stamped) ==> {
                &&& (*batch).stage matches Stage::Separating(audio) && audio@ == stamped@
                &&& event matches Event::Separated(RunEnd::Exited(_))
            }),
{
    assert forall|batch: &mut Batch, reply: Reply| #[trigger]
        call_ensures(run_separation, (job, batch, event), reply) && (*batch)@.awaits(
            event@,
        ) implies (reply.action matches Action::Stamp(stamped) ==> {
        &&& (*batch).stage matches Stage::Separating(audio) && audio@ == stamped@
        &&& event matches Event::Separated(RunEnd::Exited(_))
    }) by {
        law_stamp_is_audio(job@, (*batch)@, event@);
    }
}

} // verus!
