//! What the messages of the command line tools tell.

use vstd::prelude::*;

use crate::cli::command::{load_error_text, quoted_list, LoadErrorView};
use crate::cli::explain::{explanation, listed};
use crate::cli::modules::{read_error, PendingView};
use crate::cli::text_laws::between;
use crate::compiler::message_laws::{names, quoting};
use crate::text::decimal;

verus! {

proof fn lemma_quoted(
    text: Seq<char>,
    head: Seq<char>,
    subject: Seq<char>,
    tail: Seq<char>,
)
    requires
        text == head + subject + tail,
        head.len() > 0 && head.last() == '`',
        tail.len() > 0 && tail[0] == '`',
    ensures
        names(text, subject),
{
    assert(head =~= head.drop_last() + seq!['`']);
    assert(tail =~= seq!['`'] + tail.drop_first());
    assert(text =~= quoting(head.drop_last(), subject, tail.drop_first()));
}

/// The message of a file that cannot be read, of a wrong manifest, of an import that is not found
/// and of a cycle of imports names the files and modules that it is about.
pub proof fn load_errors_name_their_files(error: LoadErrorView)
    ensures
        match error {
            LoadErrorView::Read { path, .. } => names(load_error_text(error), path),
            LoadErrorView::Manifest { path, .. } => names(load_error_text(error), path),
            LoadErrorView::ReadImport { importer, module, path, .. } => names(
                load_error_text(error),
                importer,
            ) && names(load_error_text(error), module) && names(load_error_text(error), path),
            LoadErrorView::PackageImport { importer, package, module, .. } => names(
                load_error_text(error),
                importer,
            ) && names(load_error_text(error), module) && names(load_error_text(error), package),
            LoadErrorView::ImportCycle { path } => names(load_error_text(error), path),
            LoadErrorView::Compile { diagnostic } => load_error_text(error) == diagnostic,
        },
{
    let text = load_error_text(error);
    match error {
        LoadErrorView::Read { path, error: why } => {
            reveal_strlit("error: could not read `");
            reveal_strlit("`: ");
            let tail = "`: "@ + why + "\n"@;
            assert(text =~= "error: could not read `"@ + path + tail);
            lemma_quoted(text, "error: could not read `"@, path, tail);
        },
        LoadErrorView::Manifest { path, message } => {
            reveal_strlit("error: invalid package manifest `");
            reveal_strlit("`: ");
            let tail = "`: "@ + message + "\n"@;
            assert(text =~= "error: invalid package manifest `"@ + path + tail);
            lemma_quoted(text, "error: invalid package manifest `"@, path, tail);
        },
        LoadErrorView::ReadImport { importer, module, path, error: why } => {
            reveal_strlit("error: could not resolve import `");
            reveal_strlit("` from `");
            reveal_strlit("` as `");
            reveal_strlit("`: ");
            let a = "error: could not resolve import `"@;
            let b = "` from `"@;
            let c = "` as `"@;
            let d = "`: "@ + why + "\n"@;
            assert(text =~= a + module + (b + importer + c + path + d));
            lemma_quoted(text, a, module, b + importer + c + path + d);
            assert(text =~= (a + module + b) + importer + (c + path + d));
            lemma_quoted(text, a + module + b, importer, c + path + d);
            assert(text =~= (a + module + b + importer + c) + path + d);
            lemma_quoted(text, a + module + b + importer + c, path, d);
        },
        LoadErrorView::PackageImport { importer, package, module, searched } => {
            reveal_strlit("error: could not resolve package import `");
            reveal_strlit("` from `");
            reveal_strlit("` in package `");
            reveal_strlit("`; searched ");
            let a = "error: could not resolve package import `"@;
            let b = "` from `"@;
            let c = "` in package `"@;
            let d = "`; searched "@ + quoted_list(searched, searched.len()) + "\n"@;
            assert(text =~= a + module + (b + importer + c + package + d));
            lemma_quoted(text, a, module, b + importer + c + package + d);
            assert(text =~= (a + module + b) + importer + (c + package + d));
            lemma_quoted(text, a + module + b, importer, c + package + d);
            assert(text =~= (a + module + b + importer + c) + package + d);
            lemma_quoted(text, a + module + b + importer + c, package, d);
        },
        LoadErrorView::ImportCycle { path } => {
            reveal_strlit("error: import cycle involving `");
            reveal_strlit("`\n");
            lemma_quoted(text, "error: import cycle involving `"@, path, "`\n"@);
        },
        LoadErrorView::Compile { .. } => {},
    }
}

/// Every name of a list is in backquotes.
pub proof fn listed_names_stand_in_backquotes(list: Seq<Seq<char>>, n: nat, i: int)
    requires
        0 <= i < n <= list.len(),
    ensures
        names(quoted_list(list, n), list[i]),
    decreases n,
{
    reveal_strlit("`");
    let m = (n - 1) as nat;
    let separator = if n == 1 {
        Seq::empty()
    } else {
        ", "@
    };
    let front = quoted_list(list, m) + separator;
    let last = list[m as int];
    if i == m {
        assert(quoted_list(list, n) =~= (front + "`"@) + last + "`"@);
        lemma_quoted(quoted_list(list, n), front + "`"@, last, "`"@);
    } else {
        listed_names_stand_in_backquotes(list, m, i);
        let (before, behind) = choose|before: Seq<char>, behind: Seq<char>|
            quoted_list(list, m) == #[trigger] quoting(before, list[i], behind);
        let more = behind + separator + "`"@ + last + "`"@;
        assert(quoted_list(list, n) =~= quoting(before, list[i], more));
    }
}

/// The file that cannot be read is the innermost one; the one that imports it is the next.
pub proof fn read_errors_name_the_importer(stack: Seq<PendingView>, error: Seq<char>)
    requires
        stack.len() > 0,
    ensures
        read_error(stack, error) matches LoadErrorView::Read { path, .. } ==> stack.len() == 1
            && path == stack[0].path,
        read_error(stack, error) matches LoadErrorView::ReadImport { importer, module, path, .. }
            ==> stack.len() > 1 && path == stack.last().path && module == stack.last().module
            && importer == stack.drop_last().last().path,
        read_error(stack, error) is Read || read_error(stack, error) is ReadImport,
{
}

proof fn lemma_listed(words: Seq<Seq<char>>, n: nat)
    requires
        n <= words.len(),
    ensures
        listed(words, n) == between(words.take(n as int), ','),
    decreases n,
{
    reveal_strlit(",");
    assert(","@ =~= seq![',']);
    let some = words.take(n as int);
    if n == 1 {
        assert(some[0] == words[0]);
    } else if n > 1 {
        lemma_listed(words, (n - 1) as nat);
        lemma_between_last(some);
        assert(some.drop_last() =~= words.take(n - 1));
    }
}

proof fn lemma_between_last(words: Seq<Seq<char>>)
    requires
        words.len() > 1,
    ensures
        between(words, ',') == between(words.drop_last(), ',') + seq![','] + words.last(),
    decreases words.len(),
{
    let rest = words.drop_first();
    if words.len() == 2 {
        reveal_with_fuel(between, 2);
        assert(words.drop_last() =~= seq![words[0]]);
        assert(rest =~= seq![words[1]]);
    } else {
        lemma_between_last(rest);
        assert(words.drop_last().drop_first() =~= rest.drop_last());
        assert(words.drop_last()[0] == words[0]);
        let inner = between(rest.drop_last(), ',');
        assert(words[0] + seq![','] + (inner + seq![','] + words.last()) =~= (words[0] + seq![',']
            + inner) + seq![','] + words.last());
    }
}

/// An explanation lists the features and the capabilities with commas between them, and counts the
/// optimized chunks.
pub proof fn explanations_list_features_and_capabilities(
    features: Seq<Seq<char>>,
    capabilities: Seq<Seq<char>>,
    chunks: nat,
)
    ensures
        explanation(features, capabilities, chunks) == "features: "@ + between(features, ',')
            + "\ncapabilities: "@ + between(capabilities, ',') + "\noptimizer: chunks="@ + decimal(
            chunks,
        ) + "\n"@,
{
    lemma_listed(features, features.len());
    lemma_listed(capabilities, capabilities.len());
    assert(features.take(features.len() as int) =~= features);
    assert(capabilities.take(capabilities.len() as int) =~= capabilities);
}

} // verus!
