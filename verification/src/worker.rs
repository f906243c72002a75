//! The worker: a registry of custom macros, and the conversion of whole
//! documents with it.

use crate::document::{assemble, assembled, in_order, lemma_segments_in_order, texts};
use crate::layout::{format_with_width, typst_layout};
use crate::pipeline::{
    convert_tree, expand_macros, macro_block, math_outcome, new_registry, parse,
    parse_custom_macros, register_custom_macros, registry_macros, serialize, text_result,
    tokenize, Stage,
};
use crate::scanner::{body, body_of, scan, segments, spans, Span};
use crate::text::{trim, trimmed};
use tex2typst_rs::command_registry::{CommandRegistry, CustomMacro};
use vstd::prelude::*;
use vstd::string::*;

verus! {

/// The width of a line of the laid out document, in columns.
pub const LINE_WIDTH: usize = 80;

/// The formula of a region: its body without the white space around it.
pub open spec fn formula(s: Seq<char>, seg: Span) -> Seq<char> {
    trimmed(body_of(s, seg))
}

/// The conversions of the first `n` regions, in their order, where each of
/// them succeeds; else the message of the first that fails, behind which no
/// region is converted. `None` where the converter does not return on a
/// formula that it is given.
pub open spec fn conversions(
    macros: Seq<CustomMacro>,
    s: Seq<char>,
    segs: Seq<Span>,
    n: nat,
) -> Option<Stage<Seq<Seq<char>>>>
    decreases n,
{
    if n == 0 {
        Some(Ok(Seq::empty()))
    } else {
        match conversions(macros, s, segs, (n - 1) as nat) {
            Some(Ok(outs)) => match math_outcome(macros, formula(s, segs[n - 1])) {
                Some(Ok(converted)) => Some(Ok(outs.push(converted))),
                Some(Err(message)) => Some(Err(message)),
                None => None,
            },
            Some(Err(message)) => Some(Err(message)),
            None => None,
        }
    }
}

/// What becomes of the document `s` under `macros`: the document with each
/// region of mathematics replaced by its wrapped conversion, or the message
/// of the first region whose conversion fails.
pub open spec fn document_outcome(macros: Seq<CustomMacro>, s: Seq<char>) -> Option<
    Stage<Seq<char>>,
> {
    match conversions(macros, s, segments(s), segments(s).len()) {
        Some(Ok(outs)) => Some(Ok(assembled(s, segments(s), outs))),
        Some(Err(message)) => Some(Err(message)),
        None => None,
    }
}

/// Once the conversions of some regions have not all succeeded, the regions
/// behind them change nothing.
pub proof fn lemma_conversions_stop(
    macros: Seq<CustomMacro>,
    s: Seq<char>,
    segs: Seq<Span>,
    k: nat,
    n: nat,
)
    requires
        k <= n,
        !(conversions(macros, s, segs, k) matches Some(Ok(_))),
    ensures
        conversions(macros, s, segs, n) == conversions(macros, s, segs, k),
    decreases n,
{
    if k < n {
        lemma_conversions_stop(macros, s, segs, k, (n - 1) as nat);
    }
}

/// The outcome with the converted document laid out in lines of
/// `LINE_WIDTH` columns; a message stays as it is.
pub open spec fn laid_out(outcome: Option<Stage<Seq<char>>>) -> Option<Stage<Seq<char>>> {
    match outcome {
        Some(Ok(typst)) => Some(Ok(typst_layout(typst, LINE_WIDTH))),
        Some(Err(message)) => Some(Err(message)),
        None => None,
    }
}

/// What a preview shows in place of a document whose conversion failed.
pub open spec fn error_text(message: Seq<char>) -> Seq<char> {
    seq!['E', 'r', 'r', 'o', 'r', ':', ' '] + message
}

/// What a preview shows of an outcome: the document, or the message behind
/// the word `Error`.
pub open spec fn shown_text(outcome: Option<Stage<Seq<char>>>) -> Option<Seq<char>> {
    match outcome {
        Some(Ok(typst)) => Some(typst),
        Some(Err(message)) => Some(error_text(message)),
        None => None,
    }
}

/// Converts documents, with the custom macros that were last registered.
pub struct Worker {
    command_registry: CommandRegistry,
}

impl Worker {
    /// The custom macros that the worker holds.
    pub closed spec fn macros(&self) -> Seq<CustomMacro> {
        registry_macros(self.command_registry)
    }

    /// The documents that the worker converts: those on whose formulas, as
    /// far as they are tried, the outside converter returns.
    pub open spec fn converts(&self, s: Seq<char>) -> bool {
        document_outcome(self.macros(), s).is_some()
    }

    /// A worker without custom macros.
    pub fn new() -> (worker: Worker)
        ensures
            worker.macros() == Seq::<CustomMacro>::empty(),
    {
        Worker { command_registry: new_registry() }
    }

    /// Converts the formula `tex`: runs the five stages in their order, each
    /// on what the one before it made, and stops at the first that fails.
    pub fn convert_math(&mut self, tex: &str) -> (r: Result<String, String>)
        requires
            math_outcome(old(self).macros(), tex@).is_some(),
        ensures
            math_outcome(old(self).macros(), tex@) == Some(text_result(r)),
            *final(self) == *old(self),
    {
        let tokens = match tokenize(tex) {
            Ok(tokens) => tokens,
            Err(message) => {
                return Err(message);
            },
        };
        let expanded = match expand_macros(&self.command_registry, &tokens) {
            Ok(expanded) => expanded,
            Err(message) => {
                return Err(message);
            },
        };
        let tree = match parse(false, false, expanded) {
            Ok(tree) => tree,
            Err(message) => {
                return Err(message);
            },
        };
        let typst = match convert_tree(&tree) {
            Ok(typst) => typst,
            Err(message) => {
                return Err(message);
            },
        };
        serialize(&typst)
    }

    /// Converts the mathematics in `tex` and leaves the rest as it stands.
    /// The first formula that fails ends the conversion with its message.
    pub fn convert_document(&mut self, tex: &str) -> (r: Result<String, String>)
        requires
            old(self).converts(tex@),
        ensures
            document_outcome(old(self).macros(), tex@) == Some(text_result(r)),
            *final(self) == *old(self),
    {
        let ghost s = tex@;
        let ghost macros = self.macros();
        let found = scan(tex);
        let ghost segs = spans(found@);
        proof {
            lemma_segments_in_order(s);
        }
        let mut converted: Vec<String> = Vec::new();
        let mut i: usize = 0;
        assert(texts(converted@) == Seq::<Seq<char>>::empty());
        while i < found.len()
            invariant
                s == tex@,
                macros == self.macros(),
                *self == *old(self),
                segs == spans(found@),
                segs == segments(s),
                in_order(s, segs),
                conversions(macros, s, segs, segs.len()).is_some(),
                i <= found@.len(),
                converted@.len() == i,
                conversions(macros, s, segs, i as nat) == Some(
                    Stage::<Seq<Seq<char>>>::Ok(texts(converted@)),
                ),
            decreases found@.len() - i,
        {
            let seg = found[i];
            assert(segs[i as int] == seg@);
            proof {
                if conversions(macros, s, segs, (i + 1) as nat).is_none() {
                    lemma_conversions_stop(macros, s, segs, (i + 1) as nat, segs.len());
                }
            }
            match self.convert_math(trim(body(tex, &seg))) {
                Ok(text) => {
                    proof {
                        assert(texts(converted@.push(text)) == texts(converted@).push(text@));
                    }
                    converted.push(text);
                },
                Err(message) => {
                    proof {
                        lemma_conversions_stop(macros, s, segs, (i + 1) as nat, segs.len());
                    }
                    return Err(message);
                },
            }
            i += 1;
        }
        Ok(assemble(tex, &found, &converted))
    }

    /// Converts the mathematics in `tex` and lays the converted document out
    /// in lines of `LINE_WIDTH` columns. A failure is handed on as it is.
    pub fn work(&mut self, tex: &str) -> (r: Result<String, String>)
        requires
            old(self).converts(tex@),
        ensures
            laid_out(document_outcome(old(self).macros(), tex@)) == Some(text_result(r)),
            *final(self) == *old(self),
    {
        match self.convert_document(tex) {
            Ok(typst) => Ok(format_with_width(typst.as_str(), LINE_WIDTH)),
            Err(message) => Err(message),
        }
    }

    /// What a preview of `tex` shows: the laid out conversion, or, where the
    /// conversion fails, the message behind the word `Error`.
    pub fn preview(&mut self, tex: &str) -> (shown: String)
        requires
            old(self).converts(tex@),
        ensures
            shown_text(laid_out(document_outcome(old(self).macros(), tex@))) == Some(shown@),
            *final(self) == *old(self),
    {
        match self.work(tex) {
            Ok(typst) => typst,
            Err(message) => {
                proof {
                    reveal_strlit("Error: ");
                    assert("Error: "@ == seq!['E', 'r', 'r', 'o', 'r', ':', ' ']);
                }
                let mut shown = String::from_str("Error: ");
                shown.append(message.as_str());
                shown
            },
        }
    }

    /// Replaces the custom macros by those that the block `macros` declares,
    /// and returns their number. A block that cannot be read leaves the
    /// macros as they were.
    pub fn register_macros(&mut self, macros: &str) -> (r: Result<usize, String>)
        ensures
            match macro_block(macros@) {
                Ok(declared) => r.is_ok() && r.unwrap() == declared.len() && final(self).macros()
                    == declared,
                Err(message) => r.is_err() && r.unwrap_err()@ == message && final(self).macros()
                    == old(self).macros(),
            },
            macros@.len() == 0 ==> r.is_ok() && r.unwrap() == 0 && final(self).macros().len()
                == 0,
    {
        match parse_custom_macros(macros) {
            Ok(declared) => {
                let count: usize = declared.len();
                let mut registry = new_registry();
                register_custom_macros(&mut registry, declared);
                self.command_registry = registry;
                Ok(count)
            },
            Err(message) => Err(message),
        }
    }
}

} // verus!
