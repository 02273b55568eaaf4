//! The bless step's own words: what it is told by the adopter, what it writes
//! above every file it generates, and how a vendor's prose is kept where
//! rustdoc will not run it.
//!
//! An adoption runs the bless step once per vendor revision and commits
//! everything it writes. Every header names the command that writes the file
//! again and every document it came from, in the order they were applied, so
//! a reader is one command away from reproducing it.

use vstd::prelude::*;

use crate::json::Json;
use crate::model::Document;
use crate::openapi::{openapi_parts, read_openapi};
use crate::overlay::{layer_refusal, layered, layers_applied, reads_as_value, texts, to_yaml, value_read, yaml_written, LayerError};
use crate::reading::{corrected_of, loaded};
use crate::reduce::{ConfirmationError, LoadError, Loading};
use crate::text::{
    append_chars, append_str, chars_of, index_of, is_digit, is_space, joined, lemma_index_of_bound,
    space, string_of, trim_start, trimmed,
};

verus! {

/// The command a generated file tells its reader to run.
pub const DEFAULT_COMMAND: &'static str = "cargo run -p xtask -- bless";

/// The one exemption generated source gets from an adopter's lints, as the
/// inner attribute every generated Rust file carries.
pub const ALLOW: &'static str = "#![allow(\n    clippy::all,\n    clippy::pedantic,\n    clippy::restriction,\n    missing_debug_implementations,\n    unreachable_pub,\n    unused,\n    rustdoc::all,\n    reason = \"generated source is not graded on style; the allow covers this \\\n              module and nothing else\"\n)]\n";

/// The last component of a path, as `Path::file_name` reads it.
pub uninterp spec fn path_file_name(path: Seq<char>) -> Option<Seq<char>>;

/// The path without its last component, as `Path::parent` reads it.
pub uninterp spec fn path_parent(path: Seq<char>) -> Option<Seq<char>>;

/// The last component without its extension, as `Path::file_stem` reads it.
pub uninterp spec fn path_file_stem(path: Seq<char>) -> Option<Seq<char>>;

/// `Path::file_name`, read as text (lossily, where it is not UTF-8).
#[verifier::external_body]
fn file_name_part(path: &str) -> (r: Option<String>)
    ensures
        match path_file_name(path@) {
            Some(n) => r matches Some(s) && s@ == n,
            None => r is None,
        },
{
    std::path::Path::new(path).file_name().map(|n| n.to_string_lossy().into_owned())
}

/// `Path::parent`, read as text (lossily, where it is not UTF-8).
#[verifier::external_body]
fn parent_part(path: &str) -> (r: Option<String>)
    ensures
        match path_parent(path@) {
            Some(p) => r matches Some(s) && s@ == p,
            None => r is None,
        },
{
    std::path::Path::new(path).parent().map(|p| p.to_string_lossy().into_owned())
}

/// `Path::file_stem`, read as text (lossily, where it is not UTF-8).
#[verifier::external_body]
fn file_stem_part(path: &str) -> (r: Option<String>)
    ensures
        match path_file_stem(path@) {
            Some(n) => r matches Some(s) && s@ == n,
            None => r is None,
        },
{
    std::path::Path::new(path).file_stem().map(|n| n.to_string_lossy().into_owned())
}

/// A path's file name, or the whole path where it has none.
pub open spec fn file_name_text(path: Seq<char>) -> Seq<char> {
    match path_file_name(path) {
        Some(n) => n,
        None => path,
    }
}

/// The shortest form of a path a reader can act on: the directory holding it
/// and its name.
pub open spec fn locator_text(path: Seq<char>) -> Seq<char> {
    match path_parent(path) {
        Some(parent) => match path_file_name(parent) {
            Some(dir) => dir + "/"@ + file_name_text(path),
            None => file_name_text(path),
        },
        None => file_name_text(path),
    }
}

/// A list as prose: `a`, then `a and b`, then `a, b and c`.
pub open spec fn listed_text(items: Seq<Seq<char>>) -> Seq<char> {
    if items.len() == 0 {
        seq![]
    } else if items.len() == 1 {
        items[0]
    } else {
        joined(items.drop_last(), ", "@) + " and "@ + items.last()
    }
}

/// A path's file name, or the whole path where it has none.
pub fn file_name(path: &str) -> (r: String)
    ensures
        r@ == file_name_text(path@),
{
    match file_name_part(path) {
        Some(name) => name,
        None => path.to_owned(),
    }
}

/// The shortest form of a path a reader can act on: the directory holding it
/// and its name. A bare file name is ambiguous once an adoption has more than
/// one `spec` directory, and an absolute path is true only on the machine that
/// generated.
pub fn locator(path: &str) -> (r: String)
    ensures
        r@ == locator_text(path@),
{
    let name = file_name(path);
    match parent_part(path) {
        Some(parent) => match file_name_part(parent.as_str()) {
            Some(dir) => {
                let mut out = chars_of(dir.as_str());
                append_str(&mut out, "/");
                append_str(&mut out, name.as_str());
                string_of(out.as_slice())
            },
            None => name,
        },
        None => name,
    }
}

/// A list as prose: `a`, then `a and b`, then `a, b and c`.
pub fn listed(items: &[String]) -> (r: String)
    ensures
        r@ == listed_text(items@.map_values(|s: String| s@)),
{
    let ghost views = items@.map_values(|s: String| s@);
    let n = items.len();
    if n == 0 {
        return String::new();
    }
    if n == 1 {
        return items[0].clone();
    }
    let mut rest: Vec<String> = Vec::new();
    let mut i: usize = 0;
    while i < n - 1
        invariant
            n == items@.len(),
            n >= 2,
            i <= n - 1,
            rest@.len() == i,
            forall|j: int| 0 <= j < i ==> (#[trigger] rest@[j])@ == items@[j]@,
        decreases n - 1 - i,
    {
        rest.push(items[i].clone());
        i += 1;
    }
    assert(rest@.map_values(|s: String| s@) =~= views.drop_last());
    let mut out = crate::text::join_strings(rest.as_slice(), ", ");
    append_str(&mut out, " and ");
    append_str(&mut out, items[n - 1].as_str());
    string_of(out.as_slice())
}

/// What a bless step generates, and the things only the adopter can say:
/// which Rust types the adopter already owns for which vendor formats, what
/// command regenerates the result, and whether a summary page is wanted and
/// where it goes.
#[derive(Debug, Clone)]
pub struct Settings {
    document: String,
    overlays: Vec<String>,
    replacements: Vec<(String, String)>,
    command: String,
    summary: Option<String>,
    loading: Loading,
}

/// What a `Settings` holds, as the contracts read it.
pub struct SettingsView {
    pub document: Seq<char>,
    pub overlays: Seq<Seq<char>>,
    pub replacements: Seq<(Seq<char>, Seq<char>)>,
    pub command: Seq<char>,
    pub summary: Option<Seq<char>>,
    pub confirmation: Seq<char>,
}

impl View for Settings {
    type V = SettingsView;

    closed spec fn view(&self) -> SettingsView {
        SettingsView {
            document: self.document@,
            overlays: self.overlays@.map_values(|s: String| s@),
            replacements: self.replacements@.map_values(|p: (String, String)| (p.0@, p.1@)),
            command: self.command@,
            summary: match self.summary {
                Some(s) => Some(s@),
                None => None,
            },
            confirmation: self.loading.confirmation(),
        }
    }
}

/// The vendor's document and every layer over it, in the order they are
/// applied, each by its file name.
pub open spec fn inputs_text(s: SettingsView) -> Seq<Seq<char>> {
    seq![file_name_text(s.document)] + s.overlays.map_values(|o: Seq<char>| file_name_text(o))
}

/// What the corrected document says above its first line.
pub open spec fn document_header_text(s: SettingsView) -> Seq<char> {
    "# Generated by `"@ + s.command + "` from "@ + listed_text(inputs_text(s))
        + ".\n# Do not edit: every correction belongs in an Overlay.\n"@
}

/// What the summary page says above its first line, as an HTML comment.
pub open spec fn summary_header_text(s: SettingsView) -> Seq<char> {
    "<!--\nGenerated by `"@ + s.command + "` from "@ + listed_text(inputs_text(s))
        + ".\nDo not edit: every number below is counted off that document's reduction, and\nthat command counts them again.\n-->\n\n"@
}

/// Where a correction to a generated Rust file belongs.
pub open spec fn belongs_text(s: SettingsView) -> Seq<char> {
    if s.overlays.len() == 0 {
        "is generated from `"@ + locator_text(s.document) + "`"@
    } else {
        "belongs in "@ + listed_text(s.overlays.map_values(|o: Seq<char>| "`"@ + locator_text(o) + "`"@))
    }
}

/// What every generated Rust file says above its first line.
pub open spec fn rust_header_text(s: SettingsView, corrected: Seq<char>) -> Seq<char> {
    "//! Generated by `"@ + s.command + "` from `"@ + locator_text(corrected)
        + "`.\n//! Do not edit: every correction "@ + belongs_text(s) + ".\n"@ + ALLOW@
}

/// The corrected document's file name: the vendor's, with `overlaid` in it.
pub open spec fn corrected_name_text(document: Seq<char>) -> Seq<char> {
    (match path_file_stem(document) {
        Some(stem) => stem,
        None => document,
    }) + ".overlaid.yaml"@
}

/// Every file a bless step writes, relative to the crate it writes into and in
/// the order it writes them: the corrected document under `spec/`, the types,
/// the wrappers, the reduced model, then the summary page where one is wanted.
pub open spec fn outputs_text(s: SettingsView) -> Seq<Seq<char>> {
    seq![
        "spec/"@ + corrected_name_text(s.document),
        "src/types.rs"@,
        "src/ops.rs"@,
        "src/model.postcard"@,
    ] + match s.summary {
        Some(page) => seq![page],
        None => Seq::<Seq<char>>::empty(),
    }
}

/// The file a refusal at step `at` of a correction names: the vendor's
/// document at the first step, the layer applied at any later one.
pub open spec fn refused_file_text(s: SettingsView, at: nat) -> Seq<char>
    recommends
        at <= s.overlays.len(),
{
    if at == 0 {
        s.document
    } else {
        s.overlays[at - 1]
    }
}

impl Settings {
    /// Generate from the vendor's document, uncorrected. Corrections are
    /// layers over it — [`Settings::overlay`], once per layer.
    pub fn new(document: &str) -> (r: Self)
        ensures
            r@.document == document@,
            r@.overlays == Seq::<Seq<char>>::empty(),
            r@.replacements == Seq::<(Seq<char>, Seq<char>)>::empty(),
            r@.command == DEFAULT_COMMAND@,
            r@.summary is None,
            r@.confirmation == crate::model::COMMIT@,
    {
        let r = Settings {
            document: document.to_owned(),
            overlays: Vec::new(),
            replacements: Vec::new(),
            command: DEFAULT_COMMAND.to_owned(),
            summary: None,
            loading: Loading::new(),
        };
        assert(r@.overlays =~= Seq::<Seq<char>>::empty());
        assert(r@.replacements =~= Seq::<(Seq<char>, Seq<char>)>::empty());
        r
    }

    /// Lay one Overlay over the document, after every Overlay already named.
    /// The order of the calls is the order the layers are applied.
    pub fn overlay(self, overlay: &str) -> (r: Self)
        ensures
            r@ == (SettingsView { overlays: self@.overlays.push(overlay@), ..self@ }),
    {
        let mut me = self;
        me.overlays.push(overlay.to_owned());
        assert(me@.overlays =~= self@.overlays.push(overlay@));
        me
    }

    /// Confirm writes with this word rather than with `commit`. The word is
    /// held to the spelling rule every flag is held to, and the refusal comes
    /// back here rather than at generation time.
    pub fn commit_word(self, word: &str) -> (r: Result<Self, ConfirmationError>)
        ensures
            r is Ok <==> crate::names::kebab_of(word@).len() > 0 && !crate::reduce::transport_word(
                crate::names::kebab_of(word@),
            ) && crate::names::kebab_of(word@) != crate::reduce::HELP@,
            r matches Ok(s) ==> s@ == (SettingsView {
                confirmation: crate::names::kebab_of(word@),
                ..self@
            }),
            r matches Err(ConfirmationError::Spelling(e)) <==> crate::names::kebab_of(word@).len() == 0,
            r matches Err(ConfirmationError::Spelling(e)) ==> e.origin@ == "confirmation"@ && e.raw@ == word@,
            r matches Err(ConfirmationError::Taken { word: w }) ==> w@ == crate::names::kebab_of(word@),
    {
        let mut me = self;
        match me.loading.clone().commit(word) {
            Ok(loading) => {
                me.loading = loading;
                Ok(me)
            },
            Err(e) => Err(e),
        }
    }

    /// Emit `rust_type` wherever the document declares `format`.
    pub fn replace(self, format: &str, rust_type: &str) -> (r: Self)
        ensures
            r@ == (SettingsView {
                replacements: self@.replacements.push((format@, rust_type@)),
                ..self@
            }),
    {
        let mut me = self;
        me.replacements.push((format.to_owned(), rust_type.to_owned()));
        assert(me@.replacements =~= self@.replacements.push((format@, rust_type@)));
        me
    }

    /// Name the command that regenerates, for the header of every written
    /// file.
    pub fn regenerated_by(self, command: &str) -> (r: Self)
        ensures
            r@ == (SettingsView { command: command@, ..self@ }),
    {
        let mut me = self;
        me.command = command.to_owned();
        me
    }

    /// Render the summary page too, at `path`. A relative path lands under the
    /// crate directory the rest do; an absolute one lands where it says.
    pub fn summary_page(self, path: &str) -> (r: Self)
        ensures
            r@ == (SettingsView { summary: Some(path@), ..self@ }),
    {
        let mut me = self;
        me.summary = Some(path.to_owned());
        me
    }

    /// The vendor's document, as it was named.
    pub fn document(&self) -> (r: &str)
        ensures
            r@ == self@.document,
    {
        self.document.as_str()
    }

    /// Every layer, in the order it is applied.
    pub fn overlays(&self) -> (r: &[String])
        ensures
            r@.map_values(|s: String| s@) == self@.overlays,
    {
        self.overlays.as_slice()
    }

    /// Every format the adopter owns a Rust type for, with that type.
    pub fn replacements(&self) -> (r: &[(String, String)])
        ensures
            r@.map_values(|p: (String, String)| (p.0@, p.1@)) == self@.replacements,
    {
        self.replacements.as_slice()
    }

    /// Where the summary page goes, if one was asked for.
    pub fn summary(&self) -> (r: Option<&str>)
        ensures
            match self@.summary {
                Some(p) => r matches Some(s) && s@ == p,
                None => r is None,
            },
    {
        match &self.summary {
            Some(p) => Some(p.as_str()),
            None => None,
        }
    }

    /// The words the CLI brings to the reduction.
    pub fn loading(&self) -> (r: &Loading)
        ensures
            r.confirmation() == self@.confirmation,
    {
        &self.loading
    }

    /// The corrected document's file name: the vendor's, with `overlaid` in it.
    pub fn corrected_name(&self) -> (r: String)
        ensures
            r@ == corrected_name_text(self@.document),
    {
        let mut out = match file_stem_part(self.document.as_str()) {
            Some(stem) => chars_of(stem.as_str()),
            None => chars_of(self.document.as_str()),
        };
        append_str(&mut out, ".overlaid.yaml");
        string_of(out.as_slice())
    }

    /// Every file a bless step writes, relative to the crate it writes into
    /// and in the order it writes them.
    pub fn outputs(&self) -> (r: Vec<String>)
        ensures
            r@.map_values(|s: String| s@) == outputs_text(self@),
    {
        let mut spec = chars_of("spec/");
        let name = self.corrected_name();
        append_str(&mut spec, name.as_str());
        let mut out: Vec<String> = Vec::new();
        out.push(string_of(spec.as_slice()));
        out.push("src/types.rs".to_owned());
        out.push("src/ops.rs".to_owned());
        out.push("src/model.postcard".to_owned());
        if let Some(page) = &self.summary {
            out.push(page.clone());
        }
        proof {
            reveal_strlit("src/types.rs");
            reveal_strlit("src/ops.rs");
            reveal_strlit("src/model.postcard");
            assert(out@.map_values(|s: String| s@) =~= outputs_text(self@));
        }
        out
    }

    /// The file a refusal at step `at` of a correction names: the vendor's
    /// document at the first step, the layer applied at any later one.
    pub fn refused_file(&self, at: usize) -> (r: &str)
        requires
            at <= self@.overlays.len(),
        ensures
            r@ == refused_file_text(self@, at as nat),
    {
        if at == 0 {
            self.document.as_str()
        } else {
            self.overlays[at - 1].as_str()
        }
    }

    /// The vendor's document and every layer over it, in the order they are
    /// applied, each by its file name.
    pub fn inputs(&self) -> (r: Vec<String>)
        ensures
            r@.map_values(|s: String| s@) == inputs_text(self@),
    {
        let mut out: Vec<String> = Vec::new();
        out.push(file_name(self.document.as_str()));
        let mut i: usize = 0;
        while i < self.overlays.len()
            invariant
                i <= self.overlays@.len(),
                out@.len() == i + 1,
                out@[0]@ == file_name_text(self.document@),
                forall|j: int|
                    0 <= j < i ==> (#[trigger] out@[j + 1])@ == file_name_text(self.overlays@[j]@),
            decreases self.overlays.len() - i,
        {
            out.push(file_name(self.overlays[i].as_str()));
            i += 1;
        }
        assert(out@.map_values(|s: String| s@) =~= inputs_text(self@)) by {
            assert forall|j: int| 0 < j < out@.len() implies (#[trigger] out@[j])@
                == file_name_text(self.overlays@[j - 1]@) by {
                assert(out@[(j - 1) + 1] == out@[j]);
            }
        }
        out
    }

    /// What the corrected document says above its first line: the command
    /// that rewrites it, and every document it was built from in the order
    /// they were applied.
    pub fn document_header(&self) -> (r: String)
        ensures
            r@ == document_header_text(self@),
    {
        let inputs = self.inputs();
        let named = listed(inputs.as_slice());
        let mut out: Vec<char> = Vec::new();
        append_str(&mut out, "# Generated by `");
        append_str(&mut out, self.command.as_str());
        append_str(&mut out, "` from ");
        append_str(&mut out, named.as_str());
        append_str(&mut out, ".\n# Do not edit: every correction belongs in an Overlay.\n");
        string_of(out.as_slice())
    }

    /// What the summary page says above its first line: the command that
    /// measures it again, and every document it was measured from. An HTML
    /// comment, because the page is Markdown.
    pub fn summary_header(&self) -> (r: String)
        ensures
            r@ == summary_header_text(self@),
    {
        let inputs = self.inputs();
        let named = listed(inputs.as_slice());
        let mut out: Vec<char> = Vec::new();
        append_str(&mut out, "<!--\nGenerated by `");
        append_str(&mut out, self.command.as_str());
        append_str(&mut out, "` from ");
        append_str(&mut out, named.as_str());
        append_str(
            &mut out,
            ".\nDo not edit: every number below is counted off that document's reduction, and\nthat command counts them again.\n-->\n\n",
        );
        string_of(out.as_slice())
    }

    /// What every generated Rust file says above its first line: how to
    /// rewrite it, where a correction belongs instead, and the one exemption
    /// generated source gets from an adopter's lints.
    pub fn rust_header(&self, corrected: &str) -> (r: String)
        ensures
            r@ == rust_header_text(self@, corrected@),
    {
        let mut belongs: Vec<char> = Vec::new();
        if self.overlays.len() == 0 {
            append_str(&mut belongs, "is generated from `");
            let at = locator(self.document.as_str());
            append_str(&mut belongs, at.as_str());
            append_str(&mut belongs, "`");
        } else {
            let mut named: Vec<String> = Vec::new();
            let mut i: usize = 0;
            while i < self.overlays.len()
                invariant
                    i <= self.overlays@.len(),
                    named@.len() == i,
                    forall|j: int|
                        0 <= j < i ==> (#[trigger] named@[j])@ == "`"@ + locator_text(
                            self.overlays@[j]@,
                        ) + "`"@,
                decreases self.overlays.len() - i,
            {
                let mut one: Vec<char> = Vec::new();
                append_str(&mut one, "`");
                let at = locator(self.overlays[i].as_str());
                append_str(&mut one, at.as_str());
                append_str(&mut one, "`");
                named.push(string_of(one.as_slice()));
                i += 1;
            }
            assert(named@.map_values(|s: String| s@) =~= self@.overlays.map_values(
                |o: Seq<char>| "`"@ + locator_text(o) + "`"@,
            ));
            append_str(&mut belongs, "belongs in ");
            let list = listed(named.as_slice());
            append_str(&mut belongs, list.as_str());
        }
        let mut out: Vec<char> = Vec::new();
        append_str(&mut out, "//! Generated by `");
        append_str(&mut out, self.command.as_str());
        append_str(&mut out, "` from `");
        let at = locator(corrected);
        append_str(&mut out, at.as_str());
        append_str(&mut out, "`.\n//! Do not edit: every correction ");
        append_chars(&mut out, belongs.as_slice());
        append_str(&mut out, ".\n");
        append_str(&mut out, ALLOW);
        string_of(out.as_slice())
    }
}

/// How wide Markdown counts a tab when it measures indentation.
pub const TAB: usize = 4;

/// The deepest indentation that cannot open a code block.
pub const KEEP: usize = 3;

/// The widest gap between a list marker and its content that cannot open a
/// code block.
pub const HANG: usize = 4;

/// The most digits Markdown reads as one ordered list marker.
pub const ORDERED: usize = 9;

/// The language named on a fence rustdoc will not compile.
pub const INERT: &'static str = "text";

/// How many columns the whitespace at the start of `s` is worth, a tab
/// counting as [`TAB`].
pub open spec fn columns_of(s: Seq<char>) -> nat
    decreases s.len(),
{
    if s.len() > 0 && is_space(s[0]) {
        (if s[0] == '\t' {
            4nat
        } else {
            1nat
        }) + columns_of(s.drop_first())
    } else {
        0
    }
}

/// The whitespace at the start of `s`.
pub open spec fn leading_space(s: Seq<char>) -> Seq<char> {
    s.take(s.len() - trim_start(s).len())
}

/// `line` with its indentation capped at [`KEEP`].
pub open spec fn capped_line(line: Seq<char>) -> Seq<char> {
    let content = trim_start(line);
    if content.len() == 0 || columns_of(line) <= 3 {
        line
    } else {
        "   "@ + content
    }
}

/// How many ASCII digits `s` starts with.
pub open spec fn leading_digits(s: Seq<char>) -> nat
    decreases s.len(),
{
    if s.len() > 0 && is_digit(s[0]) {
        1 + leading_digits(s.drop_first())
    } else {
        0
    }
}

/// How wide the list marker at the start of `content` is, if it is one:
/// `-`, `+` or `*`, or up to nine digits and `.` or `)`, followed by a space
/// or a tab.
pub open spec fn marker_width(content: Seq<char>) -> Option<nat> {
    let width: nat = if content.len() > 0 && (content[0] == '-' || content[0] == '+' || content[0]
        == '*') {
        1
    } else {
        let d = leading_digits(content);
        if d == 0 || d > 9 || !(content.len() > d && (content[d as int] == '.' || content[d as int]
            == ')')) {
            0
        } else {
            d + 1
        }
    };
    if width > 0 && content.len() > width && (content[width as int] == ' ' || content[width as int]
        == '\t') {
        Some(width)
    } else {
        None
    }
}

/// `line` with the gap between a list marker and its content capped at
/// [`HANG`].
pub open spec fn unhung_line(line: Seq<char>) -> Seq<char> {
    let content = trim_start(line);
    match marker_width(content) {
        None => line,
        Some(w) => {
            let after = content.skip(w as int);
            let text = trim_start(after);
            if text.len() == 0 || columns_of(after) <= 4 {
                line
            } else {
                leading_space(line) + content.take(w as int) + "    "@ + text
            }
        },
    }
}

/// `line` with a `*` bullet written as `-`.
pub open spec fn dashed_line(line: Seq<char>) -> Seq<char> {
    let content = trim_start(line);
    if !(content.len() > 0 && content[0] == '*') || marker_width(content) is None {
        line
    } else {
        leading_space(line) + "-"@ + content.drop_first()
    }
}

/// How many `m`s `s` starts with.
pub open spec fn leading_run(s: Seq<char>, m: char) -> nat
    decreases s.len(),
{
    if s.len() > 0 && s[0] == m {
        1 + leading_run(s.drop_first(), m)
    } else {
        0
    }
}

/// Whether `s` starts with three `m`s.
pub open spec fn three(s: Seq<char>, m: char) -> bool {
    s.len() >= 3 && s[0] == m && s[1] == m && s[2] == m
}

/// The marker a line fences with and the language it names, if it is a
/// fence: three or more backticks or tildes.
pub open spec fn fence_of(line: Seq<char>) -> Option<(Seq<char>, Seq<char>)> {
    let body = trim_start(line);
    if three(body, '`') {
        let run = leading_run(body, '`');
        Some((body.take(run as int), trimmed(body.skip(run as int))))
    } else if three(body, '~') {
        let run = leading_run(body, '~');
        Some((body.take(run as int), trimmed(body.skip(run as int))))
    } else {
        None
    }
}

/// What stands before the first `,`, space or tab.
pub open spec fn first_word(s: Seq<char>) -> Seq<char>
    decreases s.len(),
{
    if s.len() == 0 || s[0] == ',' || s[0] == ' ' || s[0] == '\t' {
        seq![]
    } else {
        seq![s[0]] + first_word(s.drop_first())
    }
}

/// Whether rustdoc compiles a block a fence naming `language` opens: no word
/// at all, an `edition…` word, or one of the words it reads as attributes of
/// Rust.
pub open spec fn compiled_word(language: Seq<char>) -> bool {
    let word = first_word(language);
    ||| word.len() == 0
    ||| (word.len() >= 7 && word.take(7) == "edition"@)
    ||| word == "compile_fail"@ || word == "ignore"@ || word == "no_run"@ || word == "rust"@
        || word == "should_panic"@ || word == "standalone_crate"@ || word == "test_harness"@
}

/// One line of prose made safe, and whether a fence is open after it.
pub open spec fn line_step(line: Seq<char>, fenced: bool) -> (Seq<char>, bool) {
    if fenced && fence_of(line) is None {
        (line, fenced)
    } else {
        let tamed = dashed_line(unhung_line(capped_line(line)));
        match fence_of(tamed) {
            None => (tamed, fenced),
            Some((marker, language)) => if fenced {
                (tamed, false)
            } else {
                (
                    if compiled_word(language) {
                        leading_space(tamed) + marker + INERT@
                    } else {
                        tamed
                    },
                    true,
                )
            },
        }
    }
}

/// Every line made safe, in order, the fences carried from line to line.
pub open spec fn tamed_lines(lines: Seq<Seq<char>>, fenced: bool) -> Seq<Seq<char>>
    decreases lines.len(),
{
    if lines.len() == 0 {
        seq![]
    } else {
        let (out, next) = line_step(lines[0], fenced);
        seq![out] + tamed_lines(lines.drop_first(), next)
    }
}

/// `s` cut at every line break.
pub open spec fn split_lines(s: Seq<char>) -> Seq<Seq<char>>
    decreases s.len(),
{
    match index_of(s, '\n') {
        Some(k) => {
            proof {
                lemma_index_of_bound(s, '\n');
            }
            seq![s.take(k)] + split_lines(s.skip(k + 1))
        },
        None => seq![s],
    }
}

/// `prose` with no line indented deeply enough to open a code block, no list
/// item hanging its content far enough to open one, no bullet rustc will eat,
/// and no fence rustdoc would read as Rust.
pub open spec fn capped_lines_text(prose: Seq<char>) -> Seq<char> {
    joined(tamed_lines(split_lines(prose), false), "\n"@)
}

/// `prose` with nothing in it that rustdoc would compile: one line as it is,
/// several opened and closed on a line of their own.
pub open spec fn unrunnable_text(prose: Seq<char>) -> Seq<char> {
    let capped = capped_lines_text(prose);
    if capped.contains('\n') {
        "\n"@ + capped + "\n"@
    } else {
        capped
    }
}

/// Where the content of `line` starts, past its whitespace.
fn content_start(line: &[char]) -> (k: usize)
    ensures
        k <= line@.len(),
        line@.skip(k as int) == trim_start(line@),
        columns_of(line@) == columns_of(line@.take(k as int)),
{
    let mut k: usize = 0;
    assert(line@.skip(0) =~= line@);
    while k < line.len() && space(line[k])
        invariant
            k <= line@.len(),
            trim_start(line@) == trim_start(line@.skip(k as int)),
            forall|j: int| 0 <= j < k ==> is_space(#[trigger] line@[j]),
        decreases line.len() - k,
    {
        assert(line@.skip(k as int).drop_first() =~= line@.skip(k + 1));
        k += 1;
    }
    proof {
        lemma_columns_prefix(line@, k as int);
    }
    k
}

/// The columns of a line are those of its leading whitespace.
proof fn lemma_columns_prefix(s: Seq<char>, k: int)
    requires
        0 <= k <= s.len(),
        forall|j: int| 0 <= j < k ==> is_space(#[trigger] s[j]),
        k == s.len() || !is_space(s[k]),
    ensures
        columns_of(s) == columns_of(s.take(k)),
    decreases k,
{
    if k > 0 {
        assert(s.drop_first().take(k - 1) =~= s.take(k).drop_first());
        lemma_columns_prefix(s.drop_first(), k - 1);
    } else {
        assert(s.take(0) =~= Seq::<char>::empty());
    }
}

/// How many columns the whitespace at the start of `text` is worth.
fn columns(text: &[char]) -> (r: u128)
    ensures
        r == columns_of(text@),
{
    let mut total: u128 = 0;
    let mut k: usize = 0;
    assert(text@.skip(0) =~= text@);
    while k < text.len() && space(text[k])
        invariant
            k <= text@.len(),
            total <= 4 * k,
            columns_of(text@) == total + columns_of(text@.skip(k as int)),
        decreases text.len() - k,
    {
        assert(text@.skip(k as int).drop_first() =~= text@.skip(k + 1));
        if text[k] == '\t' {
            total += 4;
        } else {
            total += 1;
        }
        k += 1;
    }
    total
}

/// The characters `s[from..to]`.
fn slice_of(s: &[char], from: usize, to: usize) -> (out: Vec<char>)
    requires
        from <= to <= s@.len(),
    ensures
        out@ == s@.subrange(from as int, to as int),
{
    let mut out: Vec<char> = Vec::new();
    let mut k = from;
    while k < to
        invariant
            from <= k <= to,
            to <= s@.len(),
            out@ == s@.subrange(from as int, k as int),
        decreases to - k,
    {
        out.push(s[k]);
        k += 1;
    }
    out
}

/// `line` with its indentation capped at [`KEEP`].
fn capped(line: &[char]) -> (out: Vec<char>)
    ensures
        out@ == capped_line(line@),
{
    let k = content_start(line);
    let width = columns(line);
    if k == line.len() || width <= 3 {
        assert(line@.skip(k as int).len() == line@.len() - k);
        return slice_of(line, 0, line.len());
    }
    let mut out: Vec<char> = Vec::new();
    append_str(&mut out, "   ");
    let rest = slice_of(line, k, line.len());
    append_chars(&mut out, rest.as_slice());
    proof {
        reveal_strlit("   ");
    }
    out
}

/// How wide the list marker at the start of `content` is, if it is one.
fn list_marker(content: &[char]) -> (r: Option<usize>)
    ensures
        match marker_width(content@) {
            Some(w) => r == Some(w as usize),
            None => r is None,
        },
{
    let n = content.len();
    let width: usize = if n > 0 && (content[0] == '-' || content[0] == '+' || content[0] == '*') {
        1
    } else {
        let mut d: usize = 0;
        assert(content@.skip(0) =~= content@);
        while d < n && d <= 9 && '0' <= content[d] && content[d] <= '9'
            invariant
                d <= n,
                n == content@.len(),
                d <= 10,
                leading_digits(content@) == d + leading_digits(content@.skip(d as int)),
            decreases n - d,
        {
            assert(content@.skip(d as int).drop_first() =~= content@.skip(d + 1));
            d += 1;
        }
        if d == 0 || d > 9 {
            proof {
                if d > 9 {
                    assert(leading_digits(content@) >= d);
                } else {
                    assert(content@.skip(0) =~= content@);
                }
            }
            0
        } else {
            assert(!(d < n && is_digit(content@[d as int])));
            assert(leading_digits(content@.skip(d as int)) == 0) by {
                if d < n {
                    assert(content@.skip(d as int)[0] == content@[d as int]);
                }
            }
            if d < n && (content[d] == '.' || content[d] == ')') {
                d + 1
            } else {
                0
            }
        }
    };
    if width > 0 && n > width && (content[width] == ' ' || content[width] == '\t') {
        Some(width)
    } else {
        None
    }
}

/// `line` with the gap between a list marker and its content capped at
/// [`HANG`].
fn unhung(line: &[char]) -> (out: Vec<char>)
    ensures
        out@ == unhung_line(line@),
{
    let k = content_start(line);
    let content = slice_of(line, k, line.len());
    assert(content@ =~= trim_start(line@));
    let width = match list_marker(content.as_slice()) {
        Some(w) => w,
        None => return slice_of(line, 0, line.len()),
    };
    let after = slice_of(content.as_slice(), width, content.len());
    assert(after@ =~= content@.skip(width as int));
    let t = content_start(after.as_slice());
    let gap = columns(after.as_slice());
    if t == after.len() || gap <= 4 {
        assert(after@.skip(t as int).len() == after@.len() - t);
        return slice_of(line, 0, line.len());
    }
    let mut out = slice_of(line, 0, k);
    let marker = slice_of(content.as_slice(), 0, width);
    append_chars(&mut out, marker.as_slice());
    append_str(&mut out, "    ");
    let text = slice_of(after.as_slice(), t, after.len());
    append_chars(&mut out, text.as_slice());
    proof {
        reveal_strlit("    ");
        assert(line@.subrange(0, k as int) =~= leading_space(line@));
        assert(content@.subrange(0, width as int) =~= content@.take(width as int));
        assert(after@.subrange(t as int, after@.len() as int) =~= trim_start(after@));
    }
    out
}

/// `line` with a `*` bullet written as `-`.
fn dashed(line: &[char]) -> (out: Vec<char>)
    ensures
        out@ == dashed_line(line@),
{
    let k = content_start(line);
    let content = slice_of(line, k, line.len());
    assert(content@ =~= trim_start(line@));
    if !(content.len() > 0 && content[0] == '*') || list_marker(content.as_slice()).is_none() {
        return slice_of(line, 0, line.len());
    }
    let mut out = slice_of(line, 0, k);
    out.push('-');
    let rest = slice_of(content.as_slice(), 1, content.len());
    append_chars(&mut out, rest.as_slice());
    proof {
        reveal_strlit("-");
        assert(line@.subrange(0, k as int) =~= leading_space(line@));
        assert(rest@ =~= content@.drop_first());
    }
    out
}

/// How many `m`s `s` starts with.
fn run_of(s: &[char], m: char) -> (r: usize)
    ensures
        r == leading_run(s@, m),
        r <= s@.len(),
{
    let mut k: usize = 0;
    assert(s@.skip(0) =~= s@);
    while k < s.len() && s[k] == m
        invariant
            k <= s@.len(),
            leading_run(s@, m) == k + leading_run(s@.skip(k as int), m),
        decreases s.len() - k,
    {
        assert(s@.skip(k as int).drop_first() =~= s@.skip(k + 1));
        k += 1;
    }
    proof {
        if k < s@.len() {
            assert(s@.skip(k as int)[0] == s@[k as int]);
        }
    }
    k
}

/// The marker this line fences with and the language it names, if it is a
/// fence.
fn fence(line: &[char]) -> (r: Option<(Vec<char>, Vec<char>)>)
    ensures
        match fence_of(line@) {
            Some((marker, language)) => r matches Some(p) && p.0@ == marker && p.1@ == language,
            None => r is None,
        },
{
    let k = content_start(line);
    let body = slice_of(line, k, line.len());
    assert(body@ =~= trim_start(line@));
    let n = body.len();
    let mark = if n >= 3 && body[0] == '`' && body[1] == '`' && body[2] == '`' {
        '`'
    } else if n >= 3 && body[0] == '~' && body[1] == '~' && body[2] == '~' {
        '~'
    } else {
        return None;
    };
    let run = run_of(body.as_slice(), mark);
    let marker = slice_of(body.as_slice(), 0, run);
    let language = crate::text::trim_chars(body.as_slice(), run, n);
    assert(marker@ =~= body@.take(run as int));
    assert(body@.subrange(run as int, n as int) =~= body@.skip(run as int));
    Some((marker, language))
}

/// What stands before the first `,`, space or tab.
fn word_of(s: &[char]) -> (out: Vec<char>)
    ensures
        out@ == first_word(s@),
{
    let mut k: usize = 0;
    assert(s@.skip(0) =~= s@);
    while k < s.len() && s[k] != ',' && s[k] != ' ' && s[k] != '\t'
        invariant
            k <= s@.len(),
            first_word(s@) == s@.take(k as int) + first_word(s@.skip(k as int)),
        decreases s.len() - k,
    {
        assert(s@.skip(k as int).drop_first() =~= s@.skip(k + 1));
        assert(s@.take(k + 1) =~= s@.take(k as int) + seq![s@[k as int]]);
        k += 1;
    }
    proof {
        if k < s@.len() {
            assert(s@.skip(k as int)[0] == s@[k as int]);
        }
    }
    slice_of(s, 0, k)
}

/// Would rustdoc compile a block a fence naming `language` opens?
fn compiled(language: &[char]) -> (r: bool)
    ensures
        r == compiled_word(language@),
{
    let word = word_of(language);
    if word.len() == 0 {
        return true;
    }
    if word.len() >= 7 {
        let head = slice_of(word.as_slice(), 0, 7);
        let edition = chars_of("edition");
        assert(head@ =~= word@.take(7));
        if crate::text::same_chars(head.as_slice(), edition.as_slice()) {
            return true;
        }
    }
    let s = string_of(word.as_slice());
    let w = s.as_str();
    crate::text::str_is(w, "compile_fail") || crate::text::str_is(w, "ignore")
        || crate::text::str_is(w, "no_run") || crate::text::str_is(w, "rust")
        || crate::text::str_is(w, "should_panic") || crate::text::str_is(w, "standalone_crate")
        || crate::text::str_is(w, "test_harness")
}

/// One line of prose made safe, and whether a fence is open after it.
fn tame(line: &[char], fenced: bool) -> (r: (Vec<char>, bool))
    ensures
        (r.0@, r.1) == line_step(line@, fenced),
{
    if fenced && fence(line).is_none() {
        return (slice_of(line, 0, line.len()), fenced);
    }
    let first = capped(line);
    let second = unhung(first.as_slice());
    let tamed = dashed(second.as_slice());
    match fence(tamed.as_slice()) {
        None => (tamed, fenced),
        Some((marker, language)) => {
            if fenced {
                (tamed, false)
            } else if compiled(language.as_slice()) {
                let k = content_start(tamed.as_slice());
                let mut out = slice_of(tamed.as_slice(), 0, k);
                assert(out@ =~= leading_space(tamed@));
                append_chars(&mut out, marker.as_slice());
                append_str(&mut out, INERT);
                (out, true)
            } else {
                (tamed, true)
            }
        },
    }
}

/// `prose` cut at every line break.
fn lines_of(prose: &[char]) -> (out: Vec<Vec<char>>)
    ensures
        out@.map_values(|l: Vec<char>| l@) == split_lines(prose@),
    decreases prose@.len(),
{
    let n = prose.len();
    match crate::text::find_char(prose, '\n') {
        Some(k) => {
            proof {
                lemma_index_of_bound(prose@, '\n');
            }
            let head = slice_of(prose, 0, k);
            let tail = slice_of(prose, k + 1, n);
            let mut out: Vec<Vec<char>> = Vec::new();
            out.push(head);
            let mut rest = lines_of(tail.as_slice());
            let ghost rest_view = rest@.map_values(|l: Vec<char>| l@);
            out.append(&mut rest);
            proof {
                assert(tail@ =~= prose@.skip(k + 1));
                assert(head@ =~= prose@.take(k as int));
                assert(out@.map_values(|l: Vec<char>| l@) =~= seq![head@] + rest_view);
            }
            out
        },
        None => {
            let mut out: Vec<Vec<char>> = Vec::new();
            out.push(slice_of(prose, 0, n));
            assert(prose@.subrange(0, n as int) =~= prose@);
            assert(out@.map_values(|l: Vec<char>| l@) =~= seq![prose@]);
            out
        },
    }
}

/// `prose` with no line indented deeply enough to open a code block, no list
/// item hanging its content far enough to open one, no bullet rustc will eat,
/// and no fence rustdoc would read as Rust.
///
/// A line is capped, then unhung, then dashed, then read as a fence. Inside a
/// fence the content is the vendor's sample, kept as they wrote it.
pub fn capped_lines(prose: &str) -> (r: String)
    ensures
        r@ == capped_lines_text(prose@),
{
    let chars = chars_of(prose);
    let lines = lines_of(chars.as_slice());
    let ghost all = lines@.map_values(|l: Vec<char>| l@);
    let mut fenced = false;
    let mut out: Vec<String> = Vec::new();
    let mut i: usize = 0;
    assert(all.skip(0) =~= all);
    while i < lines.len()
        invariant
            i <= lines@.len(),
            all == lines@.map_values(|l: Vec<char>| l@),
            tamed_lines(all, false) == out@.map_values(|s: String| s@) + tamed_lines(
                all.skip(i as int),
                fenced,
            ),
        decreases lines.len() - i,
    {
        let (line, next) = tame(lines[i].as_slice(), fenced);
        proof {
            assert(all.skip(i as int)[0] == lines@[i as int]@);
            assert(all.skip(i as int).drop_first() =~= all.skip(i + 1));
        }
        let ghost before = out@.map_values(|s: String| s@);
        out.push(string_of(line.as_slice()));
        assert(out@.map_values(|s: String| s@) =~= before.push(line@));
        assert(before + tamed_lines(all.skip(i as int), fenced) =~= before.push(line@)
            + tamed_lines(all.skip(i + 1), next));
        fenced = next;
        i += 1;
    }
    assert(all.skip(i as int) =~= Seq::<Seq<char>>::empty());
    assert(out@.map_values(|s: String| s@) =~= tamed_lines(all, false));
    let joined_chars = crate::text::join_strings(out.as_slice(), "\n");
    string_of(joined_chars.as_slice())
}

/// A vendor's description, kept where rustdoc will not run it: each line made
/// unrunnable where it would otherwise be run, and left alone everywhere
/// else. More than one line opens on a blank line, so that `rustfmt`'s
/// indentation of a block comment is stripped from every line alike.
pub fn unrunnable(prose: &str) -> (r: String)
    ensures
        r@ == unrunnable_text(prose@),
{
    let capped = capped_lines(prose);
    let chars = chars_of(capped.as_str());
    match crate::text::find_char(chars.as_slice(), '\n') {
        None => {
            proof {
                if capped@.contains('\n') {
                    let j = choose|j: int| 0 <= j < capped@.len() && capped@[j] == '\n';
                    lemma_index_of_found(chars@, '\n', j);
                }
            }
            capped
        },
        Some(k) => {
            proof {
                lemma_index_of_bound(chars@, '\n');
            }
            let mut out: Vec<char> = Vec::new();
            out.push('\n');
            append_chars(&mut out, chars.as_slice());
            out.push('\n');
            proof {
                reveal_strlit("\n");
                assert(capped@[k as int] == '\n');
                assert(out@ =~= "\n"@ + capped@ + "\n"@);
            }
            string_of(out.as_slice())
        },
    }
}

/// A character that stands in a sequence has a first position there.
proof fn lemma_index_of_found(s: Seq<char>, c: char, j: int)
    requires
        0 <= j < s.len(),
        s[j] == c,
    ensures
        index_of(s, c) is Some,
    decreases s.len(),
{
    if s[0] != c {
        assert(s.drop_first()[j - 1] == c);
        lemma_index_of_found(s.drop_first(), c, j - 1);
    }
}

/// One correction of the vendor's document, in the three views every
/// artefact is emitted from: the corrected document as YAML, the model read
/// from that text, and the document as `openapiv3` holds it.
#[derive(Debug)]
pub struct Corrected {
    pub yaml: String,
    pub model: Document,
    pub api: openapiv3::OpenAPI,
}

/// Why a correction yields no artefacts.
#[derive(Debug)]
pub enum CorrectError {
    /// The document, or one of its layers, refused.
    Layer(LayerError),
    /// The corrected document could not be written as YAML.
    Yaml(serde_yaml_ng::Error),
    /// The corrected document does not reduce to a model.
    Unusable(LoadError),
    /// The corrected document is not OpenAPI 3.
    NotOpenApi(serde_json::Error),
}

/// Whether `e` is the refusal the document or its first refusing layer
/// earns.
pub open spec fn layer_failure(document: Seq<char>, layers: Seq<Seq<char>>, e: LayerError) -> bool {
    &&& e.at <= layers.len()
    &&& e.at == 0 <==> !reads_as_value(document)
    &&& e.at == 0 ==> e.source is Document
    &&& e.at > 0 ==> (layers_applied(value_read(document), layers.take(e.at - 1)) matches Some(d) && layer_refusal(
        d,
        layers[e.at - 1],
        e.source,
    ))
}

/// What one correction comes to: the refusal of the document or its first
/// refusing layer; where the corrected document has no YAML text, that
/// refusal; where the text does not load, the refusal loading earns; where
/// the corrected document is no OpenAPI 3 document, that refusal; and
/// otherwise the three views, owed wherever nothing refuses.
pub open spec fn correction_outcome(
    document: Seq<char>,
    layers: Seq<Seq<char>>,
    confirmation: Seq<char>,
    r: Result<Corrected, CorrectError>,
) -> bool {
    match corrected_of(document, layers) {
        None => r matches Err(CorrectError::Layer(e)) && layer_failure(document, layers, e),
        Some(j) => match yaml_written(j) {
            None => r matches Err(CorrectError::Yaml(_)),
            Some(y) => {
                &&& match r {
                    Ok(c) => c.yaml@ == y && loaded(y, Seq::empty(), confirmation, Ok(c.model)) && openapi_parts(j) is Some,
                    Err(CorrectError::Unusable(e)) => loaded(y, Seq::empty(), confirmation, Err(e)),
                    Err(CorrectError::NotOpenApi(_)) => openapi_parts(j) is None,
                    _ => false,
                }
                &&& openapi_parts(j) is Some && (forall|x: Result<Document, LoadError>|
                    #[trigger] loaded(y, Seq::empty(), confirmation, x) ==> x is Ok) ==> r is Ok
            },
        },
    }
}

/// Lay every layer over the document in order, write the result as YAML,
/// read the model from that text as every later load will, and read the
/// result as OpenAPI 3 — the first step that refuses stops the correction.
pub fn corrected(document: &str, layers: &[String], loading: &Loading) -> (r: Result<Corrected, CorrectError>)
    ensures
        correction_outcome(document@, texts(layers@), loading.confirmation(), r),
{
    let doc = match layered(document, layers) {
        Ok(doc) => doc,
        Err(e) => return Err(CorrectError::Layer(e)),
    };
    assert(corrected_of(document@, texts(layers@)) == Some(doc));
    let yaml = match to_yaml(&doc) {
        Ok(yaml) => yaml,
        Err(e) => return Err(CorrectError::Yaml(e)),
    };
    assert(yaml_written(doc) == Some(yaml@));
    let none: Vec<&str> = Vec::new();
    let model = match Document::load_with(yaml.as_str(), none.as_slice(), loading) {
        Ok(model) => model,
        Err(e) => {
            proof {
                assert(crate::reading::overlay_texts(none@) =~= Seq::<Seq<char>>::empty());
                let bad = Err::<Document, LoadError>(e);
                assert(loaded(yaml@, Seq::empty(), loading.confirmation(), bad));
                assert(!(bad is Ok));
                assert(!(forall|x: Result<Document, LoadError>|
                    #[trigger] loaded(yaml@, Seq::empty(), loading.confirmation(), x) ==> x is Ok));
                let rr = Err::<Corrected, CorrectError>(CorrectError::Unusable(e));
                assert(corrected_of(document@, texts(layers@)) == Some(doc));
                assert(yaml_written(doc) == Some(yaml@));
                assert(match rr {
                    Ok(c) => false,
                    Err(CorrectError::Unusable(e2)) => loaded(yaml@, Seq::empty(), loading.confirmation(), Err(e2)),
                    _ => false,
                });
                assert(correction_outcome(document@, texts(layers@), loading.confirmation(), rr));
            }
            return Err(CorrectError::Unusable(e));
        },
    };
    proof {
        assert(crate::reading::overlay_texts(none@) =~= Seq::<Seq<char>>::empty());
    }
    let api = match read_openapi(&doc) {
        Ok((api, _)) => api,
        Err(e) => return Err(CorrectError::NotOpenApi(e)),
    };
    Ok(Corrected { yaml, model, api })
}

} // verus!
