//! The command lines of the tools that do the audio work.

use crate::config::{
    configs_view, demucs_config, find_separator, named_config, string_list, ConfigView,
    SeparatorConfig,
};
use crate::convert::Exit;
use crate::path::{path_opt, FilePath};
use crate::pattern::{contains_char, find, join, join_of, occurs_at, occurs_in, replace, replace_of};
use crate::text::{copy_texts, same_text, texts};
use vstd::prelude::*;

verus! {

// ---------------------------------------------------------------------------
// Separation
// ---------------------------------------------------------------------------

/// An argument template with its placeholders filled in.
pub open spec fn filled_arg(arg: Seq<char>, model: Seq<char>, output: Seq<char>) -> Seq<char> {
    replace_of(replace_of(arg, "{model}"@, model), "{output}"@, output)
}

/// The argument templates of a separator with their placeholders filled in.
pub open spec fn filled_args(
    args: Seq<Seq<char>>,
    model: Seq<char>,
    output: Seq<char>,
) -> Seq<Seq<char>> {
    args.map_values(|a: Seq<char>| filled_arg(a, model, output))
}

/// The flag that asks for two stems, where the separator has one and the mode
/// wants it.
pub open spec fn stem_args(cfg: ConfigView, mode: Seq<char>) -> Seq<Seq<char>> {
    if cfg.stems_mode == "flag"@ && mode == "vocals"@ && cfg.two_stem_flag.len() > 0 {
        seq![cfg.two_stem_flag]
    } else {
        Seq::empty()
    }
}

/// The choice of a device, where one was made and the separator takes one.
pub open spec fn device_args(flag: Seq<char>, device: Seq<char>) -> Seq<Seq<char>> {
    if device != "auto"@ && flag.len() > 0 {
        seq![flag, device]
    } else {
        Seq::empty()
    }
}

/// The command of a configured separator: its program, its arguments with the
/// placeholders filled in, the two-stem flag, the device, the audio file.
pub open spec fn config_command(
    cfg: ConfigView,
    output: Seq<char>,
    audio: Seq<char>,
    model: Seq<char>,
    mode: Seq<char>,
    device: Seq<char>,
) -> Seq<Seq<char>> {
    cfg.command + filled_args(cfg.args_before, model, output) + stem_args(cfg, mode) + device_args(
        cfg.device_flag,
        device,
    ) + seq![audio]
}

/// The model for a mode: six stems take the one model that has them.
pub open spec fn model_for(mode: Seq<char>, model: Seq<char>) -> Seq<char> {
    if mode == "six_stems"@ && model != "htdemucs_6s"@ {
        "htdemucs_6s"@
    } else {
        model
    }
}

/// The command of Demucs itself, started as `base`.
pub open spec fn demucs_command(
    base: Seq<Seq<char>>,
    output: Seq<char>,
    audio: Seq<char>,
    model: Seq<char>,
    mode: Seq<char>,
    device: Seq<char>,
) -> Seq<Seq<char>> {
    base + seq!["-n"@, model_for(mode, model), "-o"@, output] + (if mode == "vocals"@ {
        seq!["--two-stems=vocals"@]
    } else {
        Seq::empty()
    }) + device_args("-d"@, device) + seq![audio]
}

/// The command that separates an audio file: that of the separator of the
/// given name, or that of Demucs where there is no such separator.
pub open spec fn separation_command_of(
    separators: Seq<ConfigView>,
    name: Seq<char>,
    base: Seq<Seq<char>>,
    output: Seq<char>,
    audio: Seq<char>,
    model: Seq<char>,
    mode: Seq<char>,
    device: Seq<char>,
) -> Seq<Seq<char>> {
    match named_config(separators, name) {
        Some(cfg) => config_command(cfg, output, audio, model, mode, device),
        None => demucs_command(base, output, audio, model, mode, device),
    }
}

/// Appends a copy of `text` to a list of strings.
fn push_text(list: &mut Vec<String>, text: &str)
    ensures
        texts(final(list)@) == texts(old(list)@).push(text@),
{
    let s = text.to_owned();
    list.push(s);
    assert(texts(list@) == texts(old(list)@).push(text@));
}

/// The command of a configured separator for one audio file.
pub fn build_command(
    cfg: &SeparatorConfig,
    demucs_base: &Vec<String>,
    output_dir: &FilePath,
    audio: &FilePath,
    model: &str,
    mode: &str,
    device: &str,
) -> (cmd: Vec<String>)
    ensures
        texts(cmd@) == config_command(
            cfg@,
            output_dir@.text,
            audio@.text,
            model@,
            mode@,
            device@,
        ),
{
    let mut c = copy_texts(&cfg.command);
    proof {
        reveal_strlit("{model}");
        reveal_strlit("{output}");
    }
    let ghost start = texts(c@);
    let ghost filled = filled_args(texts(cfg.args_before@), model@, output_dir@.text);
    for i in 0..cfg.args_before.len()
        invariant
            "{model}"@.len() > 0,
            "{output}"@.len() > 0,
            filled == filled_args(texts(cfg.args_before@), model@, output_dir@.text),
            texts(c@) == start + filled.take(i as int),
    {
        let arg = replace(
            replace(cfg.args_before[i].as_str(), "{model}", model).as_str(),
            "{output}",
            output_dir.text.as_str(),
        );
        push_text(&mut c, arg.as_str());
        assert(filled[i as int] == arg@);
        assert(filled.take(i + 1) == filled.take(i as int).push(arg@));
    }
    assert(filled.take(filled.len() as int) == filled);
    if same_text(cfg.stems_mode.as_str(), "flag") && same_text(mode, "vocals")
        && !cfg.two_stem_flag.as_str().is_empty() {
        push_text(&mut c, cfg.two_stem_flag.as_str());
    }
    assert(texts(c@) == start + filled + stem_args(cfg@, mode@));
    let ghost before = texts(c@);
    if !same_text(device, "auto") && !cfg.device_flag.as_str().is_empty() {
        push_text(&mut c, cfg.device_flag.as_str());
        push_text(&mut c, device);
    }
    assert(texts(c@) == before + device_args(cfg.device_flag@, device@));
    push_text(&mut c, audio.text.as_str());
    assert(c@.len() == texts(c@).len());
    // the audio file is there, so a command is never empty
    if c.len() == 0 && demucs_base.len() > 0 {
        return fallback_command(demucs_base, output_dir, audio, model, mode, device);
    }
    c
}

/// The command of Demucs itself for one audio file.
pub fn fallback_command(
    demucs_base: &Vec<String>,
    output_dir: &FilePath,
    audio: &FilePath,
    model: &str,
    mode: &str,
    device: &str,
) -> (cmd: Vec<String>)
    ensures
        texts(cmd@) == demucs_command(
            texts(demucs_base@),
            output_dir@.text,
            audio@.text,
            model@,
            mode@,
            device@,
        ),
{
    let mut c = copy_texts(demucs_base);
    let ghost start = texts(c@);
    push_text(&mut c, "-n");
    if same_text(mode, "six_stems") && !same_text(model, "htdemucs_6s") {
        push_text(&mut c, "htdemucs_6s");
    } else {
        push_text(&mut c, model);
    }
    push_text(&mut c, "-o");
    push_text(&mut c, output_dir.text.as_str());
    assert(texts(c@) == start + seq![
        "-n"@,
        model_for(mode@, model@),
        "-o"@,
        output_dir@.text,
    ]);
    let ghost before = texts(c@);
    let ghost two = if mode@ == "vocals"@ {
        seq!["--two-stems=vocals"@]
    } else {
        Seq::empty()
    };
    if same_text(mode, "vocals") {
        push_text(&mut c, "--two-stems=vocals");
    }
    assert(texts(c@) == before + two);
    let ghost before = texts(c@);
    proof {
        reveal_strlit("-d");
    }
    if !same_text(device, "auto") {
        push_text(&mut c, "-d");
        push_text(&mut c, device);
    }
    assert(texts(c@) == before + device_args("-d"@, device@));
    push_text(&mut c, audio.text.as_str());
    c
}

/// The command that separates an audio file with the separator of the given
/// name, or with Demucs where there is no such separator.
pub fn separation_command(
    separators: &Vec<SeparatorConfig>,
    separator_name: &str,
    demucs_base: &Vec<String>,
    output_dir: &FilePath,
    audio: &FilePath,
    model: &str,
    mode: &str,
    device: &str,
) -> (cmd: Vec<String>)
    ensures
        texts(cmd@) == separation_command_of(
            configs_view(separators@),
            separator_name@,
            texts(demucs_base@),
            output_dir@.text,
            audio@.text,
            model@,
            mode@,
            device@,
        ),
{
    match find_separator(separators.as_slice(), separator_name) {
        Some(cfg) => build_command(cfg, demucs_base, output_dir, audio, model, mode, device),
        None => fallback_command(demucs_base, output_dir, audio, model, mode, device),
    }
}

// ---------------------------------------------------------------------------
// Showing a command
// ---------------------------------------------------------------------------

/// An argument as it is shown: in quotes where it holds a space or a quote,
/// with the double quotes in it escaped.
pub open spec fn shown_arg(arg: Seq<char>) -> Seq<char> {
    if arg.contains(' ') || arg.contains('\'') || arg.contains('"') {
        "\""@ + replace_of(arg, "\""@, "\\\""@) + "\""@
    } else {
        arg
    }
}

/// An argument as it is logged: in quotes where it holds a space.
pub open spec fn logged_arg(arg: Seq<char>) -> Seq<char> {
    if arg.contains(' ') {
        "\""@ + arg + "\""@
    } else {
        arg
    }
}

/// A command as it is shown: its arguments with spaces between them.
pub open spec fn shown_command(cmd: Seq<Seq<char>>) -> Seq<char> {
    join_of(cmd.map_values(|a: Seq<char>| shown_arg(a)), " "@)
}

/// A command as it is logged: its arguments with spaces between them.
pub open spec fn logged_command(cmd: Seq<Seq<char>>) -> Seq<char> {
    join_of(cmd.map_values(|a: Seq<char>| logged_arg(a)), " "@)
}

/// A text in double quotes.
fn quoted(text: &str) -> (out: String)
    ensures
        out@ == "\""@ + text@ + "\""@,
{
    let mut out = "\"".to_string();
    out.append(text);
    out.append("\"");
    out
}

/// A command as it is shown.
pub fn command_line(cmd: &Vec<String>) -> (line: String)
    ensures
        line@ == shown_command(texts(cmd@)),
{
    let ghost all = texts(cmd@).map_values(|a: Seq<char>| shown_arg(a));
    let mut shown: Vec<String> = Vec::new();
    for i in 0..cmd.len()
        invariant
            all == texts(cmd@).map_values(|a: Seq<char>| shown_arg(a)),
            texts(shown@) == all.take(i as int),
    {
        let arg = cmd[i].as_str();
        let s: String = if contains_char(arg, ' ') || contains_char(arg, '\'') || contains_char(
            arg,
            '"',
        ) {
            proof {
                reveal_strlit("\"");
            }
            quoted(replace(arg, "\"", "\\\"").as_str())
        } else {
            arg.to_owned()
        };
        push_text(&mut shown, s.as_str());
        assert(all.take(i + 1) == all.take(i as int).push(shown_arg(arg@)));
    }
    assert(all.take(all.len() as int) == all);
    join(&shown, " ")
}

/// A command as it is logged.
pub fn plain_command_line(cmd: &Vec<String>) -> (line: String)
    ensures
        line@ == logged_command(texts(cmd@)),
{
    let ghost all = texts(cmd@).map_values(|a: Seq<char>| logged_arg(a));
    let mut shown: Vec<String> = Vec::new();
    for i in 0..cmd.len()
        invariant
            all == texts(cmd@).map_values(|a: Seq<char>| logged_arg(a)),
            texts(shown@) == all.take(i as int),
    {
        let arg = cmd[i].as_str();
        let s: String = if contains_char(arg, ' ') {
            quoted(arg)
        } else {
            arg.to_owned()
        };
        push_text(&mut shown, s.as_str());
        assert(all.take(i + 1) == all.take(i as int).push(logged_arg(arg@)));
    }
    assert(all.take(all.len() as int) == all);
    join(&shown, " ")
}

// ---------------------------------------------------------------------------
// Other tools
// ---------------------------------------------------------------------------

/// The command that converts an NCM file into `out_dir`.
pub fn ncmdump_command(ncmdump: &FilePath, out_dir: &str, ncm_path: &FilePath) -> (cmd: Vec<
    String,
>)
    ensures
        texts(cmd@) == seq![ncmdump@.text, "-o"@, out_dir@, ncm_path@.text],
{
    let cmd = string_list(vec![ncmdump.text.as_str(), "-o", out_dir, ncm_path.text.as_str()]);
    assert(texts(cmd@) == seq![ncmdump@.text, "-o"@, out_dir@, ncm_path@.text]);
    cmd
}

/// The arguments of FFmpeg that copy the tags and the cover of `source` to a
/// FLAC version `out` of the stem.
pub open spec fn metadata_args(
    stem: Seq<char>,
    source: Seq<char>,
    out: Seq<char>,
) -> Seq<Seq<char>> {
    seq![
        "-y"@,
        "-i"@,
        stem,
        "-i"@,
        source,
        "-map"@,
        "0:a"@,
        "-map_metadata"@,
        "1"@,
        "-map"@,
        "1:v?"@,
        "-c:a"@,
        "flac"@,
        "-disposition:v"@,
        "attached_pic"@,
        out,
    ]
}

/// The command that writes a stem with the metadata of its source into the
/// FLAC file of its name, if there is an FFmpeg to run.
pub fn metadata_command(
    ffmpeg: &Option<FilePath>,
    source_audio: &FilePath,
    stem_wav: &FilePath,
) -> (cmd: Option<Vec<String>>)
    ensures
        match (*ffmpeg, cmd) {
            (Some(tool), Some(c)) => texts(c@) == seq![tool@.text] + metadata_args(
                stem_wav@.text,
                source_audio@.text,
                stem_wav@.with_extension("flac"@).text,
            ),
            (None, None) => true,
            _ => false,
        },
{
    match ffmpeg {
        Some(tool) => {
            proof {
                reveal_strlit("flac");
            }
            let out = stem_wav.with_extension("flac");
            let c = string_list(
                vec![
                    tool.text.as_str(),
                    "-y",
                    "-i",
                    stem_wav.text.as_str(),
                    "-i",
                    source_audio.text.as_str(),
                    "-map",
                    "0:a",
                    "-map_metadata",
                    "1",
                    "-map",
                    "1:v?",
                    "-c:a",
                    "flac",
                    "-disposition:v",
                    "attached_pic",
                    out.text.as_str(),
                ],
            );
            assert(texts(c@) == seq![tool@.text] + metadata_args(
                stem_wav@.text,
                source_audio@.text,
                out@.text,
            ));
            Some(c)
        },
        None => None,
    }
}

/// The stem with the metadata of its source, once the command of
/// `metadata_command` was run: there is one exactly if there is an FFmpeg, it
/// could be started, which `end` says, and it succeeded.
pub fn transfer_metadata(ffmpeg: &Option<FilePath>, stem_wav: &FilePath, end: &Option<Exit>) -> (out:
    Option<FilePath>)
    ensures
        path_opt(out) == (if *ffmpeg is Some && (*end matches Some(e) && e.success) {
            Some(stem_wav@.with_extension("flac"@))
        } else {
            None
        }),
{
    proof {
        reveal_strlit("flac");
    }
    match (ffmpeg, end) {
        (Some(_), Some(e)) => if e.success {
            Some(stem_wav.with_extension("flac"))
        } else {
            None
        },
        _ => None,
    }
}

/// The arguments of FFmpeg that write the cover in `source` to `out`.
pub fn cover_args(source: &FilePath, out: &str) -> (args: Vec<String>)
    ensures
        texts(args@) == seq![
            "-y"@,
            "-i"@,
            source@.text,
            "-map"@,
            "0:v:0?"@,
            "-an"@,
            "-frames:v"@,
            "1"@,
            "-update"@,
            "1"@,
            out@,
        ],
{
    let args = string_list(
        vec![
            "-y",
            "-i",
            source.text.as_str(),
            "-map",
            "0:v:0?",
            "-an",
            "-frames:v",
            "1",
            "-update",
            "1",
            out,
        ],
    );
    assert(texts(args@) == seq![
        "-y"@,
        "-i"@,
        source@.text,
        "-map"@,
        "0:v:0?"@,
        "-an"@,
        "-frames:v"@,
        "1"@,
        "-update"@,
        "1"@,
        out@,
    ]);
    args
}

/// The arguments of ffprobe that print the duration of `path`.
pub fn duration_args(path: &FilePath) -> (args: Vec<String>)
    ensures
        texts(args@) == seq![
            "-v"@,
            "error"@,
            "-show_entries"@,
            "format=duration"@,
            "-of"@,
            "default=noprint_wrappers=1:nokey=1"@,
            path@.text,
        ],
{
    let args = string_list(
        vec![
            "-v",
            "error",
            "-show_entries",
            "format=duration",
            "-of",
            "default=noprint_wrappers=1:nokey=1",
            path.text.as_str(),
        ],
    );
    assert(texts(args@) == seq![
        "-v"@,
        "error"@,
        "-show_entries"@,
        "format=duration"@,
        "-of"@,
        "default=noprint_wrappers=1:nokey=1"@,
        path@.text,
    ]);
    args
}

/// The arguments of ffprobe that print the tags of `source` as JSON.
pub fn tag_args(source: &FilePath) -> (args: Vec<String>)
    ensures
        texts(args@) == seq![
            "-v"@,
            "quiet"@,
            "-print_format"@,
            "json"@,
            "-show_entries"@,
            "format_tags:stream_tags"@,
            source@.text,
        ],
{
    let args = string_list(
        vec![
            "-v",
            "quiet",
            "-print_format",
            "json",
            "-show_entries",
            "format_tags:stream_tags",
            source.text.as_str(),
        ],
    );
    assert(texts(args@) == seq![
        "-v"@,
        "quiet"@,
        "-print_format"@,
        "json"@,
        "-show_entries"@,
        "format_tags:stream_tags"@,
        source@.text,
    ]);
    args
}

/// The arguments of ffprobe that describe `path` as JSON.
pub fn info_args(path: &FilePath) -> (args: Vec<String>)
    ensures
        texts(args@) == seq![
            "-v"@,
            "quiet"@,
            "-print_format"@,
            "json"@,
            "-show_format"@,
            "-show_streams"@,
            path@.text,
        ],
{
    let args = string_list(
        vec![
            "-v",
            "quiet",
            "-print_format",
            "json",
            "-show_format",
            "-show_streams",
            path.text.as_str(),
        ],
    );
    assert(texts(args@) == seq![
        "-v"@,
        "quiet"@,
        "-print_format"@,
        "json"@,
        "-show_format"@,
        "-show_streams"@,
        path@.text,
    ]);
    args
}

// ---------------------------------------------------------------------------
// Laws
// ---------------------------------------------------------------------------

/// A command is never empty and always ends in the audio file, whichever
/// separator it is for.
pub proof fn law_command_ends_in_audio(
    separators: Seq<ConfigView>,
    name: Seq<char>,
    base: Seq<Seq<char>>,
    output: Seq<char>,
    audio: Seq<char>,
    model: Seq<char>,
    mode: Seq<char>,
    device: Seq<char>,
)
    ensures
        ({
            let cmd = separation_command_of(
                separators,
                name,
                base,
                output,
                audio,
                model,
                mode,
                device,
            );
            cmd.len() > 0 && cmd.last() == audio
        }),
{
}

/// A placeholder that makes up a whole text is replaced by the value alone,
/// and a text without the placeholder stays as it is.
pub proof fn law_replace_whole(pat: Seq<char>, with: Seq<char>, other: Seq<char>)
    requires
        pat.len() > 0,
        !occurs_in(other, pat),
    ensures
        replace_of(pat, pat, with) == with,
        replace_of(other, pat, with) == other,
{
    assert(pat.subrange(0, pat.len() as int) == pat);
    assert(occurs_at(pat, pat, 0));
    assert(find(pat, pat) == Some(0nat));
    let rest = pat.skip(pat.len() as int);
    assert(find(rest, pat) is None);
    assert(replace_of(rest, pat, with) == rest);
    assert(pat.take(0) + with + rest == with);
}

/// A text is not found in one that is shorter or starts otherwise and goes on
/// without it.
proof fn lemma_not_in_placeholders()
    ensures
        "{model}"@.len() > 0,
        "{output}"@.len() > 0,
        !occurs_in("{output}"@, "{model}"@),
        !occurs_in("-n"@, "{model}"@),
        !occurs_in("-n"@, "{output}"@),
        !occurs_in("-o"@, "{model}"@),
        !occurs_in("-o"@, "{output}"@),
{
    reveal_strlit("{model}");
    reveal_strlit("{output}");
    reveal_strlit("-n");
    reveal_strlit("-o");
    let s = "{output}"@;
    let p = "{model}"@;
    crate::pattern::lemma_find(s, p);
    assert(s.subrange(0, 7)[1] != p[1]);
    assert(s.subrange(1, 8)[0] != p[0]);
    assert(!occurs_at(s, p, 0));
    assert(!occurs_at(s, p, 1));
    assert(forall|i: int| !occurs_at(s, p, i));
    if let Some(i) = find(s, p) {
        assert(occurs_at(s, p, i as int));
    }
}

/// The documented call of Demucs: with the separator that is there without
/// any configuration, the arguments are the model after `-n` and the output
/// directory after `-o`.
pub proof fn law_demucs_arguments(
    output: Seq<char>,
    audio: Seq<char>,
    model: Seq<char>,
    mode: Seq<char>,
    device: Seq<char>,
)
    requires
        !occurs_in(model, "{output}"@),
    ensures
        config_command(demucs_config(), output, audio, model, mode, device) == seq![
            "python"@,
            "-m"@,
            "demucs"@,
            "-n"@,
            model,
            "-o"@,
            output,
        ] + (if mode == "vocals"@ {
            seq!["--two-stems=vocals"@]
        } else {
            Seq::empty()
        }) + (if device != "auto"@ {
            seq!["-d"@, device]
        } else {
            Seq::empty()
        }) + seq![audio],
{
    lemma_not_in_placeholders();
    reveal_strlit("--two-stems=vocals");
    reveal_strlit("-d");
    law_replace_whole("{model}"@, model, "{output}"@);
    law_replace_whole("{model}"@, model, "-n"@);
    law_replace_whole("{model}"@, model, "-o"@);
    law_replace_whole("{output}"@, output, "-n"@);
    law_replace_whole("{output}"@, output, "-o"@);
    law_replace_whole("{output}"@, output, model);
    let cfg = demucs_config();
    assert(filled_args(cfg.args_before, model, output) == seq!["-n"@, model, "-o"@, output]);
    assert(cfg.command + seq!["-n"@, model, "-o"@, output] == seq![
        "python"@,
        "-m"@,
        "demucs"@,
        "-n"@,
        model,
        "-o"@,
        output,
    ]);
}

/// Demucs is called in the same way whether it is found among the separators
/// or stands in for a missing one, but for the model of six stems.
pub proof fn law_fallback_agrees(
    output: Seq<char>,
    audio: Seq<char>,
    model: Seq<char>,
    mode: Seq<char>,
    device: Seq<char>,
)
    requires
        !occurs_in(model, "{output}"@),
        model_for(mode, model) == model,
    ensures
        config_command(demucs_config(), output, audio, model, mode, device) == demucs_command(
            seq!["python"@, "-m"@, "demucs"@],
            output,
            audio,
            model,
            mode,
            device,
        ),
{
    law_demucs_arguments(output, audio, model, mode, device);
    reveal_strlit("-d");
    assert(seq!["python"@, "-m"@, "demucs"@] + seq!["-n"@, model, "-o"@, output] == seq![
        "python"@,
        "-m"@,
        "demucs"@,
        "-n"@,
        model,
        "-o"@,
        output,
    ]);
}

/// Six stems are always separated with the model that has them when Demucs
/// stands in for a missing separator.
pub proof fn law_six_stems_model(
    base: Seq<Seq<char>>,
    output: Seq<char>,
    audio: Seq<char>,
    model: Seq<char>,
    device: Seq<char>,
)
    ensures
        demucs_command(base, output, audio, model, "six_stems"@, device)[base.len() as int + 1]
            == "htdemucs_6s"@,
{
}

} // verus!
