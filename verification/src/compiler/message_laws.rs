//! What the messages of errors tell.

use vstd::prelude::*;

use crate::compiler::error::{compile_error_text, CompileErrorKindView};
use crate::text::decimal;

verus! {

/// Whether a text names something in backquotes.
pub open spec fn names(text: Seq<char>, subject: Seq<char>) -> bool {
    exists|before: Seq<char>, behind: Seq<char>| text == #[trigger] quoting(before, subject, behind)
}

/// A text with something in backquotes in it.
pub open spec fn quoting(before: Seq<char>, subject: Seq<char>, behind: Seq<char>) -> Seq<char> {
    before + seq!['`'] + subject + seq!['`'] + behind
}

/// Whether a text tells one thing and, somewhere behind it, another.
pub open spec fn tells_both(text: Seq<char>, first: Seq<char>, second: Seq<char>) -> bool {
    exists|before: Seq<char>, between: Seq<char>|
        text == #[trigger] (before + first + between) + second
}

/// Whether a text ends with something.
pub open spec fn tells(text: Seq<char>, last: Seq<char>) -> bool {
    exists|before: Seq<char>| text == #[trigger] (before + last)
}

proof fn lemma_names(
    head: Seq<char>,
    before: Seq<char>,
    subject: Seq<char>,
    tail: Seq<char>,
    behind: Seq<char>,
)
    requires
        head == before + seq!['`'],
        tail == seq!['`'] + behind,
    ensures
        names(head + subject + tail, subject),
{
    assert(head + subject + tail =~= quoting(before, subject, behind));
}

/// A message about a name, a module, a character or a literal names it in backquotes.
pub proof fn messages_name_their_subject(kind: CompileErrorKindView)
    ensures
        match kind {
            CompileErrorKindView::UnexpectedCharacter { character } => names(
                compile_error_text(kind),
                seq![character],
            ),
            CompileErrorKindView::InvalidInteger { literal } => names(
                compile_error_text(kind),
                literal,
            ),
            CompileErrorKindView::UndefinedVariable { name }
            | CompileErrorKindView::UndefinedFunction { name }
            | CompileErrorKindView::UndefinedMethod { name }
            | CompileErrorKindView::DuplicateVariable { name }
            | CompileErrorKindView::DuplicateFunction { name }
            | CompileErrorKindView::DuplicateParameter { name }
            | CompileErrorKindView::UnknownType { name } => names(compile_error_text(kind), name),
            CompileErrorKindView::WrongCallArity { name, expected, actual } => {
                &&& names(compile_error_text(kind), name)
                &&& tells_both(compile_error_text(kind), decimal(expected), decimal(actual))
            },
            CompileErrorKindView::UnexpectedToken { expected, found }
            | CompileErrorKindView::TypeMismatch { expected, found } => tells_both(
                compile_error_text(kind),
                expected,
                found,
            ),
            CompileErrorKindView::TooManyParameters { max }
            | CompileErrorKindView::TooManyArguments { max }
            | CompileErrorKindView::TooManyArrayElements { max }
            | CompileErrorKindView::TooManyMapEntries { max }
            | CompileErrorKindView::TooManyRecordFields { max }
            | CompileErrorKindView::TooManyConstants { max }
            | CompileErrorKindView::TooManyStrings { max }
            | CompileErrorKindView::TooManyFunctions { max } => tells(
                compile_error_text(kind),
                decimal(max),
            ),
            _ => true,
        },
{
    let tail = "`"@;
    let none = Seq::<char>::empty();
    reveal_strlit("`");
    assert(tail =~= seq!['`'] + none);
    let text = compile_error_text(kind);
    match kind {
        CompileErrorKindView::UnexpectedCharacter { character } => {
            reveal_strlit("unexpected character `");
            let head = "unexpected character `"@;
            assert(head =~= head.drop_last() + seq!['`']);
            lemma_names(head, head.drop_last(), seq![character], tail, none);
        },
        CompileErrorKindView::InvalidInteger { literal } => {
            reveal_strlit("invalid integer literal `");
            let head = "invalid integer literal `"@;
            assert(head =~= head.drop_last() + seq!['`']);
            lemma_names(head, head.drop_last(), literal, tail, none);
        },
        CompileErrorKindView::UndefinedVariable { name } => {
            reveal_strlit("undefined variable `");
            let head = "undefined variable `"@;
            assert(head =~= head.drop_last() + seq!['`']);
            lemma_names(head, head.drop_last(), name, tail, none);
        },
        CompileErrorKindView::UndefinedFunction { name } => {
            reveal_strlit("undefined function `");
            let head = "undefined function `"@;
            assert(head =~= head.drop_last() + seq!['`']);
            lemma_names(head, head.drop_last(), name, tail, none);
        },
        CompileErrorKindView::UndefinedMethod { name } => {
            reveal_strlit("undefined method `");
            let head = "undefined method `"@;
            assert(head =~= head.drop_last() + seq!['`']);
            lemma_names(head, head.drop_last(), name, tail, none);
        },
        CompileErrorKindView::DuplicateVariable { name } => {
            reveal_strlit("duplicate variable `");
            let head = "duplicate variable `"@;
            assert(head =~= head.drop_last() + seq!['`']);
            lemma_names(head, head.drop_last(), name, tail, none);
        },
        CompileErrorKindView::DuplicateFunction { name } => {
            reveal_strlit("duplicate function `");
            let head = "duplicate function `"@;
            assert(head =~= head.drop_last() + seq!['`']);
            lemma_names(head, head.drop_last(), name, tail, none);
        },
        CompileErrorKindView::DuplicateParameter { name } => {
            reveal_strlit("duplicate parameter `");
            let head = "duplicate parameter `"@;
            assert(head =~= head.drop_last() + seq!['`']);
            lemma_names(head, head.drop_last(), name, tail, none);
        },
        CompileErrorKindView::UnknownType { name } => {
            reveal_strlit("unknown type `");
            let head = "unknown type `"@;
            assert(head =~= head.drop_last() + seq!['`']);
            lemma_names(head, head.drop_last(), name, tail, none);
        },
        CompileErrorKindView::WrongCallArity { name, expected, actual } => {
            reveal_strlit("wrong argument count for `");
            reveal_strlit("`; expected ");
            let head = "wrong argument count for `"@;
            let middle = "`; expected "@;
            let e = decimal(expected);
            assert(head =~= head.drop_last() + seq!['`']);
            assert(middle =~= seq!['`'] + middle.drop_first());
            assert(text =~= quoting(
                head.drop_last(),
                name,
                middle.drop_first() + e + ", got "@ + decimal(actual),
            ));
            assert(text =~= ((head + name + middle) + e + ", got "@) + decimal(actual));
        },
        CompileErrorKindView::UnexpectedToken { expected, found } => {
            assert(text == ("expected "@ + expected + ", found "@) + found);
        },
        CompileErrorKindView::TypeMismatch { expected, found } => {
            assert(text == ("type mismatch; expected "@ + expected + ", got "@) + found);
        },
        CompileErrorKindView::TooManyParameters { max } => {
            assert(text == "too many function parameters; maximum is "@ + decimal(max));
        },
        CompileErrorKindView::TooManyArguments { max } => {
            assert(text == "too many call arguments; maximum is "@ + decimal(max));
        },
        CompileErrorKindView::TooManyArrayElements { max } => {
            assert(text == "too many array elements; maximum is "@ + decimal(max));
        },
        CompileErrorKindView::TooManyMapEntries { max } => {
            assert(text == "too many map entries; maximum is "@ + decimal(max));
        },
        CompileErrorKindView::TooManyRecordFields { max } => {
            assert(text == "too many record fields; maximum is "@ + decimal(max));
        },
        CompileErrorKindView::TooManyConstants { max } => {
            assert(text == "too many constants; maximum is "@ + decimal(max));
        },
        CompileErrorKindView::TooManyStrings { max } => {
            assert(text == "too many strings; maximum is "@ + decimal(max));
        },
        CompileErrorKindView::TooManyFunctions { max } => {
            assert(text == "too many functions; maximum is "@ + decimal(max));
        },
        _ => {},
    }
}

} // verus!
