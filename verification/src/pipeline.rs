//! The conversion of one formula, and the outside code that does it.
//!
//! A formula passes five stages, each of which may fail with a message:
//! it is split into tokens, the custom macros among them are expanded, the
//! tokens are parsed into a tree, the tree is converted into a tree of the
//! target markup, and that tree is written out. The stages are the work of
//! the crate `tex2typst_rs`. This module declares what the library trusts
//! of them and names their results; `math_outcome` says what the stages make
//! of a formula when they run in this order and stop at the first failure.
//!
//! The expander, the parser, the converter and the writer abort on some
//! malformed input instead of failing with a message. The name of each such
//! stage is `None` on the input on which it does not return, and the
//! functions here leave that input out.

use tex2typst_rs::command_registry::{CommandRegistry, CustomMacro};
use tex2typst_rs::definitions::{TexNode, TexToken, TypstNode};
use vstd::prelude::*;

verus! {

/// `tex2typst_rs::definitions::TexToken`, a token of the source markup. The
/// library hands tokens from one stage to the next and never looks into one.
#[verifier::external_type_specification]
#[verifier::external_body]
pub struct ExTexToken(tex2typst_rs::definitions::TexToken);

/// `tex2typst_rs::definitions::TexNode`, a tree of the source markup.
#[verifier::external_type_specification]
#[verifier::external_body]
pub struct ExTexNode(tex2typst_rs::definitions::TexNode);

/// `tex2typst_rs::definitions::TypstNode`, a tree of the target markup.
#[verifier::external_type_specification]
#[verifier::external_body]
pub struct ExTypstNode(tex2typst_rs::definitions::TypstNode);

/// `tex2typst_rs::command_registry::CustomMacro`, a macro with its name, the
/// number of its arguments and what it stands for.
#[verifier::external_type_specification]
#[verifier::external_body]
pub struct ExCustomMacro(tex2typst_rs::command_registry::CustomMacro);

/// `tex2typst_rs::command_registry::CommandRegistry`, the collection of the
/// custom macros. What it holds is named by `registry_macros`.
#[verifier::external_type_specification]
#[verifier::external_body]
pub struct ExCommandRegistry(tex2typst_rs::command_registry::CommandRegistry);

/// How a stage ends: with a value, or with a message.
pub type Stage<T> = Result<T, Seq<char>>;

/// What the tokenizer makes of `text`: its tokens, or the message it fails
/// with.
pub uninterp spec fn tex_tokens(text: Seq<char>) -> Stage<Seq<TexToken>>;

/// What is left of `tokens` when each use of one of `macros` is replaced by
/// what the macro stands for, or the message that the expansion fails with;
/// `None` where the expander does not return.
pub uninterp spec fn expanded_tokens(macros: Seq<CustomMacro>, tokens: Seq<TexToken>) -> Option<
    Stage<Seq<TexToken>>,
>;

/// The tree that a parser with the two given settings reads from `tokens`,
/// or the message it fails with; `None` where the parser does not return.
pub uninterp spec fn parsed_tree(
    space_sensitive: bool,
    newline_sensitive: bool,
    tokens: Seq<TexToken>,
) -> Option<Stage<TexNode>>;

/// The tree of the target markup that stands for `tree`, or the message that
/// the conversion fails with; `None` where the converter does not return.
pub uninterp spec fn converted_tree(tree: TexNode) -> Option<Stage<TypstNode>>;

/// The text that a fresh writer makes of `tree`, or the message it fails
/// with; `None` where the writer does not return.
pub uninterp spec fn written_tree(tree: TypstNode) -> Option<Stage<Seq<char>>>;

/// The macros that a registry holds, in the order in which they were
/// registered.
pub uninterp spec fn registry_macros(registry: CommandRegistry) -> Seq<CustomMacro>;

/// The macros that a block of definitions declares, in the order in which
/// they stand, or the message that reading the block fails with.
pub uninterp spec fn macro_block(text: Seq<char>) -> Stage<Seq<CustomMacro>>;

/// `tex2typst_rs::tex_tokenizer::tokenize`. Trusted: what comes back, tokens
/// or message, depends on the text alone.
#[verifier::external_body]
pub(crate) fn tokenize(text: &str) -> (r: Result<Vec<TexToken>, String>)
    ensures
        match r {
            Ok(tokens) => tex_tokens(text@) == Stage::<Seq<TexToken>>::Ok(tokens@),
            Err(message) => tex_tokens(text@) == Stage::<Seq<TexToken>>::Err(message@),
        },
{
    tex2typst_rs::tex_tokenizer::tokenize(text)
}

/// `CommandRegistry::expand_macros`. Trusted: what comes back depends on the
/// macros that the registry holds and on the tokens alone. The method aborts
/// where the tokens end behind a macro that takes arguments, or behind the
/// first of its two arguments; such input is left out.
#[verifier::external_body]
pub(crate) fn expand_macros(registry: &CommandRegistry, tokens: &Vec<TexToken>) -> (r: Result<
    Vec<TexToken>,
    String,
>)
    requires
        expanded_tokens(registry_macros(*registry), tokens@).is_some(),
    ensures
        match r {
            Ok(expanded) => expanded_tokens(registry_macros(*registry), tokens@) == Some(
                Stage::<Seq<TexToken>>::Ok(expanded@),
            ),
            Err(message) => expanded_tokens(registry_macros(*registry), tokens@) == Some(
                Stage::<Seq<TexToken>>::Err(message@),
            ),
        },
{
    registry.expand_macros(tokens)
}

/// `LatexParser::new` and `LatexParser::parse`: a parser with the two given
/// settings is made and reads the tokens. Trusted: what comes back depends on
/// the settings and the tokens alone. The parser aborts on some malformed
/// input, among it a prime behind a superscript, a `\begin` without its
/// `\end` and a `\sqrt` that nothing follows; such input is left out.
#[verifier::external_body]
pub(crate) fn parse(space_sensitive: bool, newline_sensitive: bool, tokens: Vec<TexToken>) -> (r: Result<
    TexNode,
    String,
>)
    requires
        parsed_tree(space_sensitive, newline_sensitive, tokens@).is_some(),
    ensures
        match r {
            Ok(tree) => parsed_tree(space_sensitive, newline_sensitive, tokens@) == Some(
                Stage::<TexNode>::Ok(tree),
            ),
            Err(message) => parsed_tree(space_sensitive, newline_sensitive, tokens@) == Some(
                Stage::<TexNode>::Err(message@),
            ),
        },
{
    tex2typst_rs::tex_parser::LatexParser::new(space_sensitive, newline_sensitive).parse(tokens)
}

/// `tex2typst_rs::converter::convert_tree`. Trusted: what comes back depends
/// on the tree alone. The function aborts on a tree that lacks the arguments
/// its kind calls for; such a tree is left out.
#[verifier::external_body]
pub(crate) fn convert_tree(tree: &TexNode) -> (r: Result<TypstNode, String>)
    requires
        converted_tree(*tree).is_some(),
    ensures
        match r {
            Ok(typst) => converted_tree(*tree) == Some(Stage::<TypstNode>::Ok(typst)),
            Err(message) => converted_tree(*tree) == Some(Stage::<TypstNode>::Err(message@)),
        },
{
    tex2typst_rs::converter::convert_tree(tree)
}

/// `TypstWriter::new`, `TypstWriter::serialize` and `TypstWriter::finalize`:
/// a fresh writer takes the tree in and hands out its text. Trusted: what
/// comes back depends on the tree alone. The writer aborts on a tree that
/// lacks the arguments its kind calls for; such a tree is left out.
#[verifier::external_body]
pub(crate) fn serialize(tree: &TypstNode) -> (r: Result<String, String>)
    requires
        written_tree(*tree).is_some(),
    ensures
        match r {
            Ok(text) => written_tree(*tree) == Some(Stage::<Seq<char>>::Ok(text@)),
            Err(message) => written_tree(*tree) == Some(Stage::<Seq<char>>::Err(message@)),
        },
{
    let mut writer = tex2typst_rs::typst_writer::TypstWriter::new();
    writer.serialize(tree)?;
    writer.finalize()
}

/// `CommandRegistry::new`. Trusted: the new registry holds no macro.
#[verifier::external_body]
pub(crate) fn new_registry() -> (registry: CommandRegistry)
    ensures
        registry_macros(registry) == Seq::<CustomMacro>::empty(),
{
    CommandRegistry::new()
}

/// `tex2typst_rs::command_registry::parse_custom_macros`. Trusted: what comes
/// back, macros or message, depends on the text alone, and an empty text
/// declares no macro.
#[verifier::external_body]
pub(crate) fn parse_custom_macros(text: &str) -> (r: Result<Vec<CustomMacro>, String>)
    ensures
        match r {
            Ok(macros) => macro_block(text@) == Stage::<Seq<CustomMacro>>::Ok(macros@),
            Err(message) => macro_block(text@) == Stage::<Seq<CustomMacro>>::Err(message@),
        },
        text@.len() == 0 ==> r.is_ok() && r.unwrap()@.len() == 0,
{
    tex2typst_rs::command_registry::parse_custom_macros(text)
}

/// `CommandRegistry::register_custom_macros`. Trusted: the macros are added
/// behind those that the registry holds, in their order.
#[verifier::external_body]
pub(crate) fn register_custom_macros(registry: &mut CommandRegistry, macros: Vec<CustomMacro>)
    ensures
        registry_macros(*final(registry)) == registry_macros(*old(registry)) + macros@,
{
    registry.register_custom_macros(macros)
}

/// What becomes of the formula `tex` under `macros`: its text in the target
/// markup, or the message of the first stage that fails. The stages run in
/// their order, each on what the one before it made; `None` where one of them
/// does not return.
pub open spec fn math_outcome(macros: Seq<CustomMacro>, tex: Seq<char>) -> Option<
    Stage<Seq<char>>,
> {
    match tex_tokens(tex) {
        Err(message) => Some(Err(message)),
        Ok(tokens) => match expanded_tokens(macros, tokens) {
            None => None,
            Some(Err(message)) => Some(Err(message)),
            Some(Ok(expanded)) => match parsed_tree(false, false, expanded) {
                None => None,
                Some(Err(message)) => Some(Err(message)),
                Some(Ok(tree)) => match converted_tree(tree) {
                    None => None,
                    Some(Err(message)) => Some(Err(message)),
                    Some(Ok(typst)) => written_tree(typst),
                },
            },
        },
    }
}

/// A text or a message that a function hands back, as contracts speak of it.
pub open spec fn text_result(r: Result<String, String>) -> Stage<Seq<char>> {
    match r {
        Ok(text) => Ok(text@),
        Err(message) => Err(message@),
    }
}

} // verus!
