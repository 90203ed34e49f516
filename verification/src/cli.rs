//! What the command line makes of its arguments.

use crate::batch::conversion_dir;
use crate::media::{AudioItem, AudioKind, ItemView};
use crate::path::{FilePath, PathView};
use crate::scan::{is_ncm, is_ncm_file};
use vstd::prelude::*;

verus! {

/// What the input of the command line is.
#[derive(Debug, Clone, Copy, PartialEq, Eq, Structural)]
pub enum Input {
    /// A directory to scan.
    Directory,
    /// One file.
    File,
    Missing,
}

/// What the input of the command line is.
pub fn input_kind(is_dir: bool, is_file: bool) -> (kind: Input)
    ensures
        kind == (if is_dir {
            Input::Directory
        } else if is_file {
            Input::File
        } else {
            Input::Missing
        }),
{
    if is_dir {
        Input::Directory
    } else if is_file {
        Input::File
    } else {
        Input::Missing
    }
}

/// The item that a single file is: audio as it stands, unless it is an NCM
/// file.
pub open spec fn file_item_of(path: PathView) -> ItemView {
    ItemView {
        path,
        status: "待处理"@,
        process_path: if is_ncm(path, false) {
            None
        } else {
            Some(path)
        },
        kind: if is_ncm(path, false) {
            AudioKind::Ncm
        } else {
            AudioKind::Normal
        },
    }
}

/// The item that a single file is.
pub fn file_item(path: &FilePath) -> (item: AudioItem)
    ensures
        item@ == file_item_of(path@),
{
    let ncm: bool = is_ncm_file(path, false);
    AudioItem {
        path: path.clone(),
        status: "待处理".to_string(),
        process_path: if ncm {
            None
        } else {
            Some(path.clone())
        },
        kind: if ncm {
            AudioKind::Ncm
        } else {
            AudioKind::Normal
        },
    }
}

/// What is done with an item when files are only converted.
#[derive(Debug)]
pub enum ConvertPlan {
    /// Say this and go on.
    Skip(String),
    /// Say this and convert the file into that directory.
    Convert { line: String, out_dir: String },
}

/// What is done with an item when files are only converted, as a value.
pub enum PlanView {
    Skip(Seq<char>),
    Convert { line: Seq<char>, out_dir: Seq<char> },
}

impl View for ConvertPlan {
    type V = PlanView;

    open spec fn view(&self) -> PlanView {
        match self {
            ConvertPlan::Skip(s) => PlanView::Skip(s@),
            ConvertPlan::Convert { line, out_dir } => PlanView::Convert {
                line: line@,
                out_dir: out_dir@,
            },
        }
    }
}

/// What is done with an item when files are only converted: NCM files are
/// converted if there is a tool for it, and nothing else is touched.
pub fn plan_conversion(item: &AudioItem, has_ncmdump: bool) -> (plan: ConvertPlan)
    ensures
        plan@ == (if item@.kind == AudioKind::Normal {
            PlanView::Skip("Not NCM, skip: "@ + item@.path.text)
        } else if has_ncmdump {
            PlanView::Convert {
                line: "Converting: "@ + item@.path.text,
                out_dir: conversion_dir(item@.path),
            }
        } else {
            PlanView::Skip("ncmdump not found, cannot convert: "@ + item@.path.text)
        }),
{
    if item.kind == AudioKind::Normal {
        let mut line = "Not NCM, skip: ".to_string();
        line.append(item.path.text.as_str());
        return ConvertPlan::Skip(line);
    }
    if !has_ncmdump {
        let mut line = "ncmdump not found, cannot convert: ".to_string();
        line.append(item.path.text.as_str());
        return ConvertPlan::Skip(line);
    }
    let mut line = "Converting: ".to_string();
    line.append(item.path.text.as_str());
    let out_dir = match &item.path.parent {
        Some(dir) => dir.clone(),
        None => ".".to_string(),
    };
    ConvertPlan::Convert { line, out_dir }
}

/// What is said about a conversion: where the audio is, or why there is none.
pub fn conversion_line(result: &Result<FilePath, String>) -> (line: String)
    ensures
        line@ == (match *result {
            Ok(path) => "  -> "@ + path@.text,
            Err(e) => "  FAIL: "@ + e@,
        }),
{
    match result {
        Ok(path) => {
            let mut line = "  -> ".to_string();
            line.append(path.text.as_str());
            line
        },
        Err(e) => {
            let mut line = "  FAIL: ".to_string();
            line.append(e.as_str());
            line
        },
    }
}

} // verus!
