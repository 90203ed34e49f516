//! What the commands are for, and what is there without any configuration.

use crate::command::{
    build_command, command_line, cover_args, duration_args, fallback_command, filled_arg, info_args,
    metadata_command, ncmdump_command, plain_command_line, separation_command, shown_arg, tag_args,
    transfer_metadata,
};
use crate::config::{
    configs_view, find_separator, load_separators, named_config, ConfigView, SeparatorConfig,
    Settings, SETTINGS_FILE,
};
use crate::convert::Exit;
use crate::laws::separating::free_of;
use crate::laws::texts::{law_join, law_replaced};
use crate::path::{law_with_extension, FilePath};
use crate::pattern::{find, lemma_find, occurs_at, replace_of};
use crate::text::texts;
use vstd::prelude::*;

verus! {

// ---------------------------------------------------------------------------
// What is configured
// ---------------------------------------------------------------------------

/// Where separators are configured, exactly those are offered. Where none is,
/// there is Demucs: four models, three modes, and the flags that Demucs
/// takes.
pub proof fn law_separators_offered(
    configured: Option<Vec<SeparatorConfig>>,
    out: Vec<SeparatorConfig>,
)
    requires
        call_ensures(load_separators, (configured,), out),
    ensures
        out@.len() > 0,
        configured is Some && configured->0@.len() > 0 ==> ({
            &&& out@.len() == configured->0@.len()
            &&& forall|i: int| 0 <= i < out@.len() ==> (#[trigger] out@[i])@ == configured->0@[i]@
        }),
        configured is None || configured->0@.len() == 0 ==> ({
            &&& out@.len() == 1
            &&& out@[0].name@ == "Demucs"@
            &&& texts(out@[0].command@) == seq!["python"@, "-m"@, "demucs"@]
            &&& texts(out@[0].models@) == seq![
                "htdemucs"@,
                "htdemucs_ft"@,
                "mdx_extra"@,
                "htdemucs_6s"@,
            ]
            &&& texts(out@[0].modes@) == seq!["vocals"@, "four_stems"@, "six_stems"@]
            &&& texts(out@[0].args_before@) == seq!["-n"@, "{model}"@, "-o"@, "{output}"@]
            &&& out@[0].two_stem_flag@ == "--two-stems=vocals"@
            &&& out@[0].device_flag@ == "-d"@
            &&& out@[0].stems_mode@ == "flag"@
        }),
{
    let view = configs_view(out@);
    assert(view.len() == out@.len());
    assert forall|i: int| 0 <= i < out@.len() implies (#[trigger] out@[i])@ == view[i] by {}
    if configured is Some && configured->0@.len() > 0 {
        let given = configs_view(configured->0@);
        assert forall|i: int| 0 <= i < out@.len() implies (#[trigger] out@[i])@
            == configured->0@[i]@ by {
            assert(view[i] == given[i]);
        }
    } else {
        assert(view[0] == out@[0]@);
    }
}

/// The separator that is found has the name, and none before it has. Where
/// none is found, none of them has it.
pub proof fn law_separator_found(
    configs: &[SeparatorConfig],
    name: &str,
    found: Option<&SeparatorConfig>,
)
    requires
        call_ensures(find_separator, (configs, name), found),
    ensures
        match found {
            Some(c) => c.name@ == name@ && exists|i: int|
                #![trigger configs@[i]]
                0 <= i < configs@.len() && configs@[i]@ == c@ && forall|j: int|
                    0 <= j < i ==> (#[trigger] configs@[j]).name@ != name@,
            None => forall|i: int|
                0 <= i < configs@.len() ==> (#[trigger] configs@[i]).name@ != name@,
        },
{
    let all = configs_view(configs@);
    lemma_named(all, name@);
    assert forall|i: int| 0 <= i < configs@.len() implies #[trigger] configs@[i]@ == all[i] by {}
    match found {
        Some(c) => {
            let i = choose|i: int|
                #![trigger all[i]]
                0 <= i < all.len() && all[i] == c@ && all[i].name == name@ && forall|j: int|
                    0 <= j < i ==> (#[trigger] all[j]).name != name@;
            assert(configs@[i]@ == c@);
            assert forall|j: int| 0 <= j < i implies (#[trigger] configs@[j]).name@ != name@ by {
                assert(all[j].name == configs@[j].name@);
            }
        },
        None => {
            assert forall|i: int| 0 <= i < configs@.len() implies (#[trigger] configs@[i]).name@
                != name@ by {
                assert(all[i].name == configs@[i].name@);
            }
        },
    }
}

/// The named separator is the first of its name.
pub proof fn lemma_named(all: Seq<ConfigView>, name: Seq<char>)
    ensures
        match named_config(all, name) {
            Some(c) => exists|i: int|
                #![trigger all[i]]
                0 <= i < all.len() && all[i] == c && all[i].name == name && forall|j: int|
                    0 <= j < i ==> (#[trigger] all[j]).name != name,
            None => forall|i: int| 0 <= i < all.len() ==> (#[trigger] all[i]).name != name,
        },
    decreases all.len(),
{
    if all.len() > 0 && all[0].name != name {
        let rest = all.skip(1);
        lemma_named(rest, name);
        match named_config(rest, name) {
            Some(c) => {
                let k = choose|k: int|
                    #![trigger rest[k]]
                    0 <= k < rest.len() && rest[k] == c && rest[k].name == name && forall|j: int|
                        0 <= j < k ==> (#[trigger] rest[j]).name != name;
                assert(all[k + 1] == c);
                assert forall|j: int| 0 <= j < k + 1 implies (#[trigger] all[j]).name != name by {
                    if j > 0 {
                        assert(all[j] == rest[j - 1]);
                    }
                }
            },
            None => {
                assert forall|i: int| 0 <= i < all.len() implies (#[trigger] all[i]).name
                    != name by {
                    if i > 0 {
                        assert(all[i] == rest[i - 1]);
                    }
                }
            },
        }
    } else if all.len() > 0 {
        assert(all[0] == named_config(all, name)->0);
    }
}

/// Settings that were saved are used as they are; else the two directories,
/// the first model, two stems, any device and Demucs.
pub proof fn law_settings(saved: Option<Settings>, loaded: Settings)
    requires
        call_ensures(Settings::load, (saved,), loaded),
    ensures
        SETTINGS_FILE@ == "stem_studio_settings.json"@,
        saved is Some ==> loaded@ == saved->0@,
        saved is None ==> ({
            &&& loaded.source@ == r"G:\CloudMusic\VipSongsDownload"@
            &&& loaded.output@ == "stems_output"@
            &&& loaded.model@ == "htdemucs"@
            &&& loaded.mode@ == "vocals"@
            &&& loaded.device@ == "auto"@
            &&& loaded.separator@ == "Demucs"@
        }),
{
}

// ---------------------------------------------------------------------------
// The commands of the tools
// ---------------------------------------------------------------------------

/// The command of Demucs itself: started as it was found, with the model, or
/// with the only one for six stems, the output directory, the flag for two
/// stems exactly for them, the device exactly if one was chosen, and the audio
/// last.
pub proof fn law_fallback_command(
    base: &Vec<String>,
    output: &FilePath,
    audio: &FilePath,
    model: &str,
    mode: &str,
    device: &str,
    cmd: Vec<String>,
)
    requires
        call_ensures(fallback_command, (base, output, audio, model, mode, device), cmd),
    ensures
        texts(cmd@) == texts(base@) + seq![
            "-n"@,
            if mode@ == "six_stems"@ {
                "htdemucs_6s"@
            } else {
                model@
            },
            "-o"@,
            output.text@,
        ] + (if mode@ == "vocals"@ {
            seq!["--two-stems=vocals"@]
        } else {
            seq![]
        }) + (if device@ == "auto"@ {
            seq![]
        } else {
            seq!["-d"@, device@]
        }) + seq![audio.text@],
{
    reveal_strlit("-d");
}

/// The command of a configured separator: its program, each of its arguments
/// where that holds no placeholder, its flags where it has them and they are
/// asked for, and the audio last.
pub proof fn law_built_command(
    cfg: &SeparatorConfig,
    base: &Vec<String>,
    output: &FilePath,
    audio: &FilePath,
    model: &str,
    mode: &str,
    device: &str,
    cmd: Vec<String>,
)
    requires
        call_ensures(build_command, (cfg, base, output, audio, model, mode, device), cmd),
        forall|i: int|
            0 <= i < cfg.args_before@.len() ==> free_of(
                (#[trigger] cfg.args_before@[i])@,
                "{model}"@,
            ) && free_of(cfg.args_before@[i]@, "{output}"@),
    ensures
        texts(cmd@) == texts(cfg.command@) + texts(cfg.args_before@) + (if cfg.stems_mode@
            == "flag"@ && mode@ == "vocals"@ && cfg.two_stem_flag@.len() > 0 {
            seq![cfg.two_stem_flag@]
        } else {
            seq![]
        }) + (if device@ == "auto"@ || cfg.device_flag@.len() == 0 {
            seq![]
        } else {
            seq![cfg.device_flag@, device@]
        }) + seq![audio.text@],
{
    let args = texts(cfg.args_before@);
    let filled = crate::command::filled_args(args, model@, output@.text);
    reveal_strlit("{model}");
    reveal_strlit("{output}");
    assert forall|i: int| 0 <= i < args.len() implies #[trigger] filled[i] == args[i] by {
        let arg = cfg.args_before@[i]@;
        assert(args[i] == arg);
        lemma_nothing_replaced(arg, "{model}"@, model@);
        lemma_nothing_replaced(arg, "{output}"@, output@.text);
    }
    assert(filled == args);
}

/// An argument of a configured separator takes the model and the output
/// directory in the places of their placeholders, wherever they stand in it and
/// in whichever order.
pub proof fn law_argument_filled(
    cfg: &SeparatorConfig,
    base: &Vec<String>,
    output: &FilePath,
    audio: &FilePath,
    model: &str,
    mode: &str,
    device: &str,
    cmd: Vec<String>,
    i: int,
    a: Seq<char>,
    b: Seq<char>,
    c: Seq<char>,
)
    requires
        call_ensures(build_command, (cfg, base, output, audio, model, mode, device), cmd),
        0 <= i < cfg.args_before@.len(),
        !a.contains('{'),
        !b.contains('{'),
        !c.contains('{'),
        !model@.contains('{'),
    ensures
        ({
            let arg = cfg.args_before@[i]@;
            let filled = texts(cmd@)[cfg.command@.len() + i];
            &&& arg == a + "{model}"@ + b ==> filled == a + model@ + b
            &&& arg == a + "{output}"@ + b ==> filled == a + output.text@ + b
            &&& arg == a + "{model}"@ + b + "{output}"@ + c ==> filled == a + model@ + b
                + output.text@ + c
            &&& arg == a + "{output}"@ + b + "{model}"@ + c ==> filled == a + output.text@ + b
                + model@ + c
        }),
{
    let arg = cfg.args_before@[i]@;
    let args = texts(cfg.args_before@);
    let all = crate::command::filled_args(args, model@, output@.text);
    assert(args[i] == arg);
    assert(texts(cmd@)[cfg.command@.len() + i] == all[i]) by {
        assert(texts(cfg.command@).len() == cfg.command@.len());
    }
    lemma_model_filled(model@, output@.text, a, b);
    lemma_output_filled(model@, output@.text, a, b);
    lemma_model_output_filled(model@, output@.text, a, b, c);
    lemma_output_model_filled(model@, output@.text, a, b, c);
}

/// A text with one placeholder is filled at its place.
proof fn lemma_one_filled(a: Seq<char>, pat: Seq<char>, b: Seq<char>, with: Seq<char>)
    requires
        pat.len() > 0,
        pat[0] == '{',
        !a.contains('{'),
        !b.contains('{'),
    ensures
        replace_of(a + pat + b, pat, with) == a + with + b,
        replace_of(b, pat, with) == b,
{
    let s = a + pat + b;
    assert forall|i: int| 0 <= i < a.len() implies #[trigger] s.subrange(i, i + pat.len())
        != pat by {
        assert(s.subrange(i, i + pat.len())[0] == a[i]);
        assert(a.contains(a[i]));
    }
    law_replaced(a, pat, b, with);
    lemma_brace_missing(b, pat);
    lemma_nothing_replaced(b, pat, with);
}

/// A text without a brace holds no placeholder.
proof fn lemma_brace_missing(s: Seq<char>, pat: Seq<char>)
    requires
        pat.len() > 0,
        pat[0] == '{',
        !s.contains('{'),
    ensures
        free_of(s, pat),
{
    assert forall|i: int| 0 <= i && i + pat.len() <= s.len() implies #[trigger] s.subrange(
        i,
        i + pat.len(),
    ) != pat by {
        assert(s.subrange(i, i + pat.len())[0] == s[i]);
        assert(s.contains(s[i]));
    }
}

/// The model alone is filled in.
proof fn lemma_model_filled(model: Seq<char>, output: Seq<char>, a: Seq<char>, b: Seq<char>)
    requires
        !a.contains('{'),
        !b.contains('{'),
        !model.contains('{'),
    ensures
        filled_arg(a + "{model}"@ + b, model, output) == a + model + b,
{
    let m = "{model}"@;
    let o = "{output}"@;
    reveal_strlit("{model}");
    reveal_strlit("{output}");
    lemma_one_filled(a, m, b, model);
    lemma_no_brace(a, model, b);
    lemma_brace_missing(a + model + b, o);
    lemma_nothing_replaced(a + model + b, o, output);
}

/// The output directory alone is filled in.
proof fn lemma_output_filled(model: Seq<char>, output: Seq<char>, a: Seq<char>, b: Seq<char>)
    requires
        !a.contains('{'),
        !b.contains('{'),
        !model.contains('{'),
    ensures
        filled_arg(a + "{output}"@ + b, model, output) == a + output + b,
{
    let m = "{model}"@;
    let o = "{output}"@;
    reveal_strlit("{model}");
    reveal_strlit("{output}");
    lemma_model_missing(a, b);
    lemma_nothing_replaced(a + o + b, m, model);
    lemma_one_filled(a, o, b, output);
}

/// The model and then the output directory are filled in.
proof fn lemma_model_output_filled(
    model: Seq<char>,
    output: Seq<char>,
    a: Seq<char>,
    b: Seq<char>,
    c: Seq<char>,
)
    requires
        !a.contains('{'),
        !b.contains('{'),
        !c.contains('{'),
        !model.contains('{'),
    ensures
        filled_arg(a + "{model}"@ + b + "{output}"@ + c, model, output) == a + model + b + output
            + c,
{
    let m = "{model}"@;
    let o = "{output}"@;
    reveal_strlit("{model}");
    reveal_strlit("{output}");
    let rest = b + o + c;
    let arg = a + m + rest;
    assert(a + m + b + o + c == arg);
    assert forall|i: int| 0 <= i < a.len() implies #[trigger] arg.subrange(i, i + m.len())
        != m by {
        assert(arg.subrange(i, i + m.len())[0] == a[i]);
        assert(a.contains(a[i]));
    }
    law_replaced(a, m, rest, model);
    lemma_model_missing(b, c);
    lemma_nothing_replaced(rest, m, model);
    assert(a + model + rest == a + model + b + o + c);
    lemma_no_brace(a, model, b);
    lemma_one_filled(a + model + b, o, c, output);
}

/// The output directory and then the model are filled in.
proof fn lemma_output_model_filled(
    model: Seq<char>,
    output: Seq<char>,
    a: Seq<char>,
    b: Seq<char>,
    c: Seq<char>,
)
    requires
        !a.contains('{'),
        !b.contains('{'),
        !c.contains('{'),
        !model.contains('{'),
    ensures
        filled_arg(a + "{output}"@ + b + "{model}"@ + c, model, output) == a + output + b + model
            + c,
{
    let m = "{model}"@;
    let o = "{output}"@;
    reveal_strlit("{model}");
    reveal_strlit("{output}");
    let front = a + o + b;
    let arg = front + m + c;
    assert forall|i: int| 0 <= i < front.len() implies #[trigger] arg.subrange(i, i + m.len())
        != m by {
        let piece = arg.subrange(i, i + m.len());
        assert(piece[0] == front[i]);
        if i < a.len() {
            assert(a.contains(a[i]));
        } else if i == a.len() {
            assert(piece[1] == front[i + 1]);
            assert(front[i + 1] == o[1]);
        } else if i < a.len() + o.len() {
            assert(front[i] == o[i - a.len()]);
        } else {
            assert(front[i] == b[i - a.len() - o.len()]);
            assert(b.contains(b[i - a.len() - o.len()]));
        }
    }
    law_replaced(front, m, c, model);
    lemma_brace_missing(c, m);
    lemma_nothing_replaced(c, m, model);
    let rest = b + model + c;
    assert(front + model + c == a + o + rest);
    lemma_no_brace(b, model, c);
    lemma_one_filled(a, o, rest, output);
    assert(a + output + rest == a + output + b + model + c);
}

/// Three texts without a brace have none together.
proof fn lemma_no_brace(a: Seq<char>, b: Seq<char>, c: Seq<char>)
    requires
        !a.contains('{'),
        !b.contains('{'),
        !c.contains('{'),
    ensures
        !(a + b + c).contains('{'),
{
    let s = a + b + c;
    if s.contains('{') {
        let i = choose|i: int| 0 <= i < s.len() && s[i] == '{';
        if i < a.len() {
            assert(a[i] == '{');
        } else if i < a.len() + b.len() {
            assert(b[i - a.len()] == '{');
        } else {
            assert(c[i - a.len() - b.len()] == '{');
        }
    }
}

/// The placeholder of the model does not stand in a text whose only brace is
/// that of the output directory.
proof fn lemma_model_missing(a: Seq<char>, b: Seq<char>)
    requires
        !a.contains('{'),
        !b.contains('{'),
    ensures
        free_of(a + "{output}"@ + b, "{model}"@),
{
    let m = "{model}"@;
    let o = "{output}"@;
    reveal_strlit("{model}");
    reveal_strlit("{output}");
    let s = a + o + b;
    assert forall|i: int| 0 <= i && i + m.len() <= s.len() implies #[trigger] s.subrange(
        i,
        i + m.len(),
    ) != m by {
        let piece = s.subrange(i, i + m.len());
        assert(piece[0] == s[i]);
        if i < a.len() {
            assert(a.contains(a[i]));
        } else if i == a.len() {
            assert(piece[1] == s[i + 1]);
            assert(s[i + 1] == o[1]);
        } else if i < a.len() + o.len() {
            assert(s[i] == o[i - a.len()]);
        } else {
            assert(s[i] == b[i - a.len() - o.len()]);
            assert(b.contains(b[i - a.len() - o.len()]));
        }
    }
}

/// A text that nowhere holds the other is not changed by replacing that.
proof fn lemma_nothing_replaced(s: Seq<char>, pat: Seq<char>, with: Seq<char>)
    requires
        free_of(s, pat),
        pat.len() > 0,
    ensures
        replace_of(s, pat, with) == s,
{
    lemma_find(s, pat);
    if let Some(i) = find(s, pat) {
        assert(occurs_at(s, pat, i as int));
        assert(s.subrange(i as int, (i + pat.len()) as int) == pat);
    }
}

/// The command that separates is that of the separator of that name, or that
/// of Demucs itself where there is none.
pub proof fn law_separation_command(
    separators: &Vec<SeparatorConfig>,
    name: &str,
    base: &Vec<String>,
    output: &FilePath,
    audio: &FilePath,
    model: &str,
    mode: &str,
    device: &str,
    found: Option<&SeparatorConfig>,
    cmd: Vec<String>,
    other: Vec<String>,
)
    requires
        found is Some ==> {
            &&& exists|i: int|
                #![trigger separators@[i]]
                0 <= i < separators@.len() && separators@[i]@ == found->0@ && separators@[i].name@
                    == name@ && forall|j: int|
                    0 <= j < i ==> (#[trigger] separators@[j]).name@ != name@
            &&& call_ensures(
                build_command,
                (found->0, base, output, audio, model, mode, device),
                other,
            )
        },
        found is None ==> {
            &&& forall|i: int|
                0 <= i < separators@.len() ==> (#[trigger] separators@[i]).name@ != name@
            &&& call_ensures(fallback_command, (base, output, audio, model, mode, device), other)
        },
        call_ensures(
            separation_command,
            (separators, name, base, output, audio, model, mode, device),
            cmd,
        ),
    ensures
        texts(cmd@) == texts(other@),
{
    let all = configs_view(separators@);
    lemma_named(all, name@);
    assert forall|i: int| 0 <= i < all.len() implies #[trigger] all[i] == separators@[i]@ by {}
    match found {
        Some(c) => {
            let i = choose|i: int|
                #![trigger separators@[i]]
                0 <= i < separators@.len() && separators@[i]@ == found->0@ && separators@[i].name@
                    == name@ && forall|j: int|
                    0 <= j < i ==> (#[trigger] separators@[j]).name@ != name@;
            assert(all[i].name == name@);
            let k = choose|k: int|
                #![trigger all[k]]
                0 <= k < all.len() && Some(all[k]) == named_config(all, name@) && all[k].name
                    == name@ && forall|j: int|
                    0 <= j < k ==> (#[trigger] all[j]).name != name@;
            assert(separators@[k].name@ == all[k].name);
            assert(k == i);
        },
        None => {
            if named_config(all, name@) is Some {
                let k = choose|k: int|
                    #![trigger all[k]]
                    0 <= k < all.len() && all[k].name == name@;
                assert(separators@[k].name@ == all[k].name);
            }
        },
    }
}

/// ncmdump is told the directory behind `-o` and the file last.
pub proof fn law_ncmdump_command(tool: &FilePath, dir: &str, ncm: &FilePath, cmd: Vec<String>)
    requires
        call_ensures(ncmdump_command, (tool, dir, ncm), cmd),
    ensures
        texts(cmd@) == seq![tool.text@, "-o"@, dir@, ncm.text@],
{
}

/// Without FFmpeg there is no command that copies metadata. With one it reads
/// the stem as the first input and the source as the second, takes the sound
/// of the first, the tags and the picture of the second, and writes FLAC.
pub proof fn law_metadata_command(
    ffmpeg: &Option<FilePath>,
    source: &FilePath,
    stem: &FilePath,
    cmd: Option<Vec<String>>,
)
    requires
        call_ensures(metadata_command, (ffmpeg, source, stem), cmd),
    ensures
        cmd is Some <==> *ffmpeg is Some,
        cmd is Some ==> ({
            let c = texts(cmd->0@);
            &&& c.len() == 17
            &&& c.drop_last() == seq![
                (*ffmpeg)->0.text@,
                "-y"@,
                "-i"@,
                stem.text@,
                "-i"@,
                source.text@,
                "-map"@,
                "0:a"@,
                "-map_metadata"@,
                "1"@,
                "-map"@,
                "1:v?"@,
                "-c:a"@,
                "flac"@,
                "-disposition:v"@,
                "attached_pic"@,
            ]
        }),
{
}

/// The stem with the metadata is there exactly if FFmpeg is, ran and
/// succeeded; it is the file that the command names last, a FLAC file with the
/// name and in the directory of the stem.
pub proof fn law_transferred(
    ffmpeg: &Option<FilePath>,
    source: &FilePath,
    stem: &FilePath,
    end: &Option<Exit>,
    cmd: Option<Vec<String>>,
    out: Option<FilePath>,
)
    requires
        call_ensures(metadata_command, (ffmpeg, source, stem), cmd),
        call_ensures(transfer_metadata, (ffmpeg, stem, end), out),
    ensures
        out is Some <==> *ffmpeg is Some && *end is Some && (*end)->0.success,
        out is Some ==> ({
            let written = out->0@;
            &&& cmd is Some
            &&& texts(cmd->0@).last() == written.text
            &&& stem@.file_name() is Some && stem@.file_name()->0.len() > 0 ==> {
                &&& written.extension() == Some("flac"@)
                &&& written.stem() == stem@.stem()
                &&& written.parent == stem@.parent
            }
        }),
{
    reveal_strlit("flac");
    if stem@.file_name() is Some && stem@.file_name()->0.len() > 0 {
        law_with_extension(stem@, "flac"@);
    }
}

/// The arguments of FFmpeg for a cover: the first picture of the source, one
/// frame of it, and nothing to hear, goes to the file that is named last.
pub proof fn law_cover_args(source: &FilePath, out: &str, args: Vec<String>)
    requires
        call_ensures(cover_args, (source, out), args),
    ensures
        texts(args@) == seq![
            "-y"@,
            "-i"@,
            source.text@,
            "-map"@,
            "0:v:0?"@,
            "-an"@,
            "-frames:v"@,
            "1"@,
            "-update"@,
            "1"@,
            out@,
        ],
{
}

/// The arguments of ffprobe for a duration: that one entry, the value alone,
/// of the file that is named last.
pub proof fn law_duration_args(path: &FilePath, args: Vec<String>)
    requires
        call_ensures(duration_args, (path,), args),
    ensures
        texts(args@) == seq![
            "-v"@,
            "error"@,
            "-show_entries"@,
            "format=duration"@,
            "-of"@,
            "default=noprint_wrappers=1:nokey=1"@,
            path.text@,
        ],
{
}

/// The arguments of ffprobe for tags: those of the file and of its streams, as
/// JSON, of the file that is named last.
pub proof fn law_tag_args(path: &FilePath, args: Vec<String>)
    requires
        call_ensures(tag_args, (path,), args),
    ensures
        texts(args@) == seq![
            "-v"@,
            "quiet"@,
            "-print_format"@,
            "json"@,
            "-show_entries"@,
            "format_tags:stream_tags"@,
            path.text@,
        ],
{
}

/// The arguments of ffprobe for information: on the file and its streams, as
/// JSON, of the file that is named last.
pub proof fn law_info_args(path: &FilePath, args: Vec<String>)
    requires
        call_ensures(info_args, (path,), args),
    ensures
        texts(args@) == seq![
            "-v"@,
            "quiet"@,
            "-print_format"@,
            "json"@,
            "-show_format"@,
            "-show_streams"@,
            path.text@,
        ],
{
}

// ---------------------------------------------------------------------------
// Showing a command
// ---------------------------------------------------------------------------

/// A text with a backslash in front of each double quote.
pub open spec fn escaped(arg: Seq<char>) -> Seq<char> {
    arg.map_values(
        |c: char|
            if c == '"' {
                seq!['\\', '"']
            } else {
                seq![c]
            },
    ).flatten()
}

/// A command is shown with one space between two arguments. An argument with
/// a space or a quote in it stands in double quotes, with a backslash in front
/// of each double quote of its own; any other stands as it is.
pub proof fn law_command_line(
    cmd: &Vec<String>,
    longer: &Vec<String>,
    arg: Seq<char>,
    line: String,
    longer_line: String,
)
    requires
        call_ensures(command_line, (cmd,), line),
        call_ensures(command_line, (longer,), longer_line),
        texts(longer@) == texts(cmd@).push(arg),
    ensures
        cmd@.len() == 0 ==> line@.len() == 0,
        longer_line@ == (if cmd@.len() == 0 {
            seq![]
        } else {
            line@.push(' ')
        }) + (if arg.contains(' ') || arg.contains('\'') || arg.contains('"') {
            seq!['"'] + escaped(arg) + seq!['"']
        } else {
            arg
        }),
{
    let all = texts(cmd@).map_values(|a: Seq<char>| shown_arg(a));
    assert(texts(longer@).map_values(|a: Seq<char>| shown_arg(a)) == all.push(shown_arg(arg)));
    law_join(all, shown_arg(arg), " "@);
    reveal_strlit(" ");
    reveal_strlit("\"");
    assert(" "@ == seq![' ']);
    assert("\""@ == seq!['"']);
    lemma_escaped(arg);
    assert(texts(cmd@).len() == cmd@.len());
    if cmd@.len() == 0 {
        assert(all == Seq::<Seq<char>>::empty());
        assert(all.push(shown_arg(arg)) == seq![shown_arg(arg)]);
    }
}

/// A command is logged with one space between two arguments, and in double
/// quotes where an argument holds a space.
pub proof fn law_plain_command_line(
    cmd: &Vec<String>,
    longer: &Vec<String>,
    arg: Seq<char>,
    line: String,
    longer_line: String,
)
    requires
        call_ensures(plain_command_line, (cmd,), line),
        call_ensures(plain_command_line, (longer,), longer_line),
        texts(longer@) == texts(cmd@).push(arg),
    ensures
        cmd@.len() == 0 ==> line@.len() == 0,
        longer_line@ == (if cmd@.len() == 0 {
            seq![]
        } else {
            line@.push(' ')
        }) + (if arg.contains(' ') {
            seq!['"'] + arg + seq!['"']
        } else {
            arg
        }),
{
    let shown = |a: Seq<char>| crate::command::logged_arg(a);
    let all = texts(cmd@).map_values(shown);
    assert(texts(longer@).map_values(shown) == all.push(shown(arg)));
    law_join(all, shown(arg), " "@);
    reveal_strlit(" ");
    reveal_strlit("\"");
    assert(" "@ == seq![' ']);
    assert("\""@ == seq!['"']);
    assert(texts(cmd@).len() == cmd@.len());
    if cmd@.len() == 0 {
        assert(all == Seq::<Seq<char>>::empty());
        assert(all.push(shown(arg)) == seq![shown(arg)]);
    }
}

/// Replacing double quotes goes through a text character by character.
proof fn lemma_escaped(arg: Seq<char>)
    ensures
        replace_of(arg, "\""@, "\\\""@) == escaped(arg),
    decreases arg.len(),
{
    let quote = "\""@;
    let with = "\\\""@;
    reveal_strlit("\"");
    reveal_strlit("\\\"");
    assert(quote == seq!['"']);
    assert(with == seq!['\\', '"']);
    let one = |c: char|
        if c == '"' {
            seq!['\\', '"']
        } else {
            seq![c]
        };
    if arg.len() == 0 {
        assert(find(arg, quote) is None);
        assert(arg.map_values(one).len() == 0);
        assert(escaped(arg) == Seq::<char>::empty());
        assert(arg == Seq::<char>::empty());
    } else {
        let rest = arg.skip(1);
        lemma_escaped(rest);
        assert(arg.map_values(one).drop_first() == rest.map_values(one));
        assert(escaped(arg) == one(arg[0]) + escaped(rest));
        if arg[0] == '"' {
            assert(arg == Seq::<char>::empty() + quote + rest);
            assert(arg.subrange(0, 1) == quote);
            assert(occurs_at(arg, quote, 0));
            assert(find(arg, quote) == Some(0nat));
            assert(arg.take(0) + with + rest == with + rest);
            assert(replace_of(arg, quote, with) == arg.take(0) + with + replace_of(
                rest,
                quote,
                with,
            ));
        } else {
            assert(arg.subrange(0, 1)[0] == arg[0]);
            assert(!occurs_at(arg, quote, 0));
            match find(rest, quote) {
                Some(i) => {
                    lemma_find(rest, quote);
                    assert(find(arg, quote) == Some(i + 1));
                    assert(arg.take((i + 1) as int) == seq![arg[0]] + rest.take(i as int));
                    assert(arg.skip((i + 2) as int) == rest.skip((i + 1) as int));
                    assert(replace_of(arg, quote, with) == seq![arg[0]] + replace_of(
                        rest,
                        quote,
                        with,
                    ));
                },
                None => {
                    assert(arg == seq![arg[0]] + rest);
                },
            }
        }
    }
}

} // verus!
