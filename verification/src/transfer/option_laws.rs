//! What holds of every command line of a transfer.
use crate::transfer::options::{
    asked, asks_help, flags_from, no_flags, Flags, Mode, OptionsView, UsageView,
};
use vstd::prelude::*;
use vstd::seq_lib::to_multiset_contains;

verus! {

/// The word is an option that has a value.
pub open spec fn takes_value(word: Seq<char>) -> bool {
    word == "--source"@ || word == "--destination"@ || word == "--manifest"@
}

/// The words from `from` on in groups: an option with its value, or a word alone.
pub open spec fn groups(args: Seq<Seq<char>>, from: int) -> Seq<Seq<Seq<char>>>
    decreases args.len() - from,
{
    if from >= args.len() {
        Seq::empty()
    } else if takes_value(args[from]) && from + 1 < args.len() {
        seq![seq![args[from], args[from + 1]]] + groups(args, from + 2)
    } else {
        seq![seq![args[from]]] + groups(args, from + 1)
    }
}

/// The group is an option of a transfer, with its value where it takes one.
pub open spec fn is_option(group: Seq<Seq<char>>) -> bool {
    ||| group.len() == 2 && takes_value(group[0])
    ||| group.len() == 1 && (group[0] == "--resume"@ || group[0] == "--quiesced"@)
}

/// Every group is an option of a transfer.
pub open spec fn all_options(groups: Seq<Seq<Seq<char>>>) -> bool {
    forall|i: int| 0 <= i < groups.len() ==> is_option(#[trigger] groups[i])
}

/// No option with a value is there twice.
pub open spec fn values_come_once(groups: Seq<Seq<Seq<char>>>) -> bool {
    forall|i: int, j: int|
        0 <= i < j < groups.len() && takes_value((#[trigger] groups[i])[0]) ==> groups[i][0] != (
        #[trigger] groups[j])[0]
}

/// The options with one more group.
spec fn with_group(flags: Flags, group: Seq<Seq<char>>) -> Flags {
    if group.len() == 1 {
        if group[0] == "--resume"@ {
            Flags { resume: true, ..flags }
        } else {
            Flags { quiesced: true, ..flags }
        }
    } else if group[0] == "--source"@ {
        Flags { source: Some(group[1]), ..flags }
    } else if group[0] == "--destination"@ {
        Flags { destination: Some(group[1]), ..flags }
    } else {
        Flags { manifest: Some(group[1]), ..flags }
    }
}

/// The options with some more groups, from the first to the last.
spec fn with_groups(flags: Flags, groups: Seq<Seq<Seq<char>>>) -> Flags
    decreases groups.len(),
{
    if groups.len() == 0 {
        flags
    } else {
        with_groups(with_group(flags, groups[0]), groups.skip(1))
    }
}

/// The value of an option.
spec fn value_in(flags: Flags, option: Seq<char>) -> Option<Seq<char>> {
    if option == "--source"@ {
        flags.source
    } else if option == "--destination"@ {
        flags.destination
    } else {
        flags.manifest
    }
}

/// The words of options are all different.
proof fn options_differ()
    ensures
        "--source"@ != "--destination"@,
        "--source"@ != "--manifest"@,
        "--source"@ != "--resume"@,
        "--source"@ != "--quiesced"@,
        "--destination"@ != "--manifest"@,
        "--destination"@ != "--resume"@,
        "--destination"@ != "--quiesced"@,
        "--manifest"@ != "--resume"@,
        "--manifest"@ != "--quiesced"@,
        "--resume"@ != "--quiesced"@,
{
    reveal_strlit("--source");
    reveal_strlit("--destination");
    reveal_strlit("--manifest");
    reveal_strlit("--resume");
    reveal_strlit("--quiesced");
    assert("--source"@.len() == 8);
    assert("--destination"@.len() == 13);
    assert("--manifest"@.len() == 10);
    assert("--resume"@.len() == 8);
    assert("--quiesced"@.len() == 10);
    assert("--source"@[2] != "--resume"@[2]);
    assert("--manifest"@[2] != "--quiesced"@[2]);
}

/// A transfer is not a cry for help.
proof fn commands_are_no_help()
    ensures
        !asks_help("copy"@),
        !asks_help("verify"@),
{
    reveal_strlit("copy");
    reveal_strlit("verify");
    reveal_strlit("--help");
    reveal_strlit("-h");
    reveal_strlit("help");
    assert("copy"@.len() == 4 && "help"@.len() == 4 && "--help"@.len() == 6 && "-h"@.len() == 2);
    assert("verify"@.len() == 6);
    assert("copy"@[0] != "help"@[0]);
    assert("verify"@[0] != "--help"@[0]);
}

/// What words stand for is what their groups stand for.
proof fn flags_are_of_groups(args: Seq<Seq<char>>, from: int, flags: Flags)
    requires
        0 <= from,
    ensures
        all_options(groups(args, from)) ==> flags_from(args, from, flags) == Ok::<
            Flags,
            UsageView,
        >(with_groups(flags, groups(args, from))),
        !all_options(groups(args, from)) ==> flags_from(args, from, flags) is Err,
    decreases args.len() - from,
{
    options_differ();
    let all = groups(args, from);
    if from < args.len() {
        let step: int = if takes_value(args[from]) && from + 1 < args.len() {
            2
        } else {
            1
        };
        let rest = groups(args, from + step);
        assert(all.skip(1) =~= rest);
        assert(all_options(all) <==> is_option(all[0]) && all_options(rest)) by {
            if all_options(all) {
                assert forall|i: int| 0 <= i < rest.len() implies is_option(#[trigger] rest[i]) by {
                    assert(rest[i] == all[i + 1]);
                }
            }
            if is_option(all[0]) && all_options(rest) {
                assert forall|i: int| 0 <= i < all.len() implies is_option(#[trigger] all[i]) by {
                    if i > 0 {
                        assert(all[i] == rest[i - 1]);
                    }
                }
            }
        }
        flags_are_of_groups(args, from + step, with_group(flags, all[0]));
    }
}

/// An option that is in no group keeps its value.
proof fn value_stays(flags: Flags, groups: Seq<Seq<Seq<char>>>, option: Seq<char>)
    requires
        all_options(groups),
        takes_value(option),
        forall|i: int| 0 <= i < groups.len() ==> (#[trigger] groups[i])[0] != option,
    ensures
        value_in(with_groups(flags, groups), option) == value_in(flags, option),
    decreases groups.len(),
{
    options_differ();
    if groups.len() > 0 {
        let rest = groups.skip(1);
        assert(is_option(groups[0]) && groups[0][0] != option);
        assert forall|i: int| 0 <= i < rest.len() implies (#[trigger] rest[i])[0] != option
            && is_option(rest[i]) by {
            assert(rest[i] == groups[i + 1]);
        }
        value_stays(with_group(flags, groups[0]), rest, option);
    }
}

/// An option has the value of the last of its groups.
proof fn value_is(flags: Flags, groups: Seq<Seq<Seq<char>>>, option: Seq<char>, at: int)
    requires
        all_options(groups),
        takes_value(option),
        0 <= at < groups.len(),
        groups[at][0] == option,
        forall|i: int| at < i < groups.len() ==> (#[trigger] groups[i])[0] != option,
    ensures
        value_in(with_groups(flags, groups), option) == Some(groups[at][1]),
    decreases groups.len(),
{
    options_differ();
    let rest = groups.skip(1);
    assert forall|i: int| 0 <= i < rest.len() implies is_option(#[trigger] rest[i]) by {
        assert(rest[i] == groups[i + 1]);
    }
    assert forall|i: int| at - 1 < i < rest.len() && 0 <= i implies (#[trigger] rest[i])[0]
        != option by {
        assert(rest[i] == groups[i + 1]);
    }
    assert(is_option(groups[0]));
    if at == 0 {
        value_stays(with_group(flags, groups[0]), rest, option);
    } else {
        assert(rest[at - 1] == groups[at]);
        value_is(with_group(flags, groups[0]), rest, option, at - 1);
    }
}

/// The options without a value are set where they are among the groups.
proof fn switches_are(flags: Flags, groups: Seq<Seq<Seq<char>>>)
    requires
        all_options(groups),
    ensures
        with_groups(flags, groups).resume <==> flags.resume || groups.contains(
            seq!["--resume"@],
        ),
        with_groups(flags, groups).quiesced <==> flags.quiesced || groups.contains(
            seq!["--quiesced"@],
        ),
    decreases groups.len(),
{
    options_differ();
    if groups.len() > 0 {
        let first = groups[0];
        let rest = groups.skip(1);
        assert forall|i: int| 0 <= i < rest.len() implies is_option(#[trigger] rest[i]) by {
            assert(rest[i] == groups[i + 1]);
        }
        switches_are(with_group(flags, first), rest);
        assert(is_option(first));
        assert(groups =~= seq![first] + rest);
        one_of_first_or_rest(first, rest, seq!["--resume"@]);
        one_of_first_or_rest(first, rest, seq!["--quiesced"@]);
        if first.len() == 1 {
            assert(first =~= seq![first[0]]);
        }
        assert(seq!["--resume"@][0] == "--resume"@ && seq!["--quiesced"@][0] == "--quiesced"@);
        assert(seq!["--resume"@].len() == 1 && seq!["--quiesced"@].len() == 1);
    }
}

proof fn one_of_first_or_rest(
    first: Seq<Seq<char>>,
    rest: Seq<Seq<Seq<char>>>,
    group: Seq<Seq<char>>,
)
    ensures
        (seq![first] + rest).contains(group) <==> first == group || rest.contains(group),
{
    let all = seq![first] + rest;
    if all.contains(group) {
        let i = choose|i: int| 0 <= i < all.len() && all[i] == group;
        if i > 0 {
            assert(rest[i - 1] == group);
        }
    }
    if first == group {
        assert(all[0] == group);
    }
    if rest.contains(group) {
        let i = choose|i: int| 0 <= i < rest.len() && rest[i] == group;
        assert(all[i + 1] == group);
    }
}

/// An option has one value, in whichever order the groups stand.
proof fn value_is_of_any_order(
    a: Seq<Seq<Seq<char>>>,
    b: Seq<Seq<Seq<char>>>,
    option: Seq<char>,
)
    requires
        all_options(a),
        all_options(b),
        values_come_once(a),
        values_come_once(b),
        takes_value(option),
        forall|g: Seq<Seq<char>>| a.contains(g) <==> #[trigger] b.contains(g),
    ensures
        value_in(with_groups(no_flags(), a), option) == value_in(
            with_groups(no_flags(), b),
            option,
        ),
{
    if exists|i: int| 0 <= i < a.len() && (#[trigger] a[i])[0] == option {
        let i = choose|i: int| 0 <= i < a.len() && (#[trigger] a[i])[0] == option;
        assert(a.contains(a[i]));
        assert(b.contains(a[i]));
        let j = choose|j: int| 0 <= j < b.len() && b[j] == a[i];
        value_is(no_flags(), a, option, i);
        value_is(no_flags(), b, option, j);
    } else {
        assert forall|j: int| 0 <= j < b.len() implies (#[trigger] b[j])[0] != option by {
            assert(b.contains(b[j]));
            assert(a.contains(b[j]));
            let i = choose|i: int| 0 <= i < a.len() && a[i] == b[j];
            assert(a[i][0] != option);
        }
        value_stays(no_flags(), a, option);
        value_stays(no_flags(), b, option);
    }
}

/// Both command lines are refused, or both ask for the same transfer.
pub open spec fn same_answer(
    a: Result<Option<OptionsView>, UsageView>,
    b: Result<Option<OptionsView>, UsageView>,
) -> bool {
    ||| a is Err && b is Err
    ||| a == b && a matches Ok(Some(_))
}

/// The order of the options does not matter: two command lines with one command and
/// the same options, none that has a value twice, are both refused or ask for the
/// same transfer.
pub proof fn option_order_does_not_matter(a: Seq<Seq<char>>, b: Seq<Seq<char>>)
    requires
        a.len() > 0,
        b.len() > 0,
        a[0] == b[0],
        a[0] == "copy"@ || a[0] == "verify"@,
        groups(a, 1).to_multiset() == groups(b, 1).to_multiset(),
        values_come_once(groups(a, 1)),
        values_come_once(groups(b, 1)),
    ensures
        same_answer(asked(a), asked(b)),
{
    commands_are_no_help();
    let x = groups(a, 1);
    let y = groups(b, 1);
    assert forall|g: Seq<Seq<char>>| x.contains(g) <==> #[trigger] y.contains(g) by {
        to_multiset_contains(x, g);
        to_multiset_contains(y, g);
    }
    flags_are_of_groups(a, 1, no_flags());
    flags_are_of_groups(b, 1, no_flags());
    if all_options(x) {
        assert forall|i: int| 0 <= i < y.len() implies is_option(#[trigger] y[i]) by {
            assert(y.contains(y[i]));
            let j = choose|j: int| 0 <= j < x.len() && x[j] == y[i];
            assert(is_option(x[j]));
        }
        value_is_of_any_order(x, y, "--source"@);
        value_is_of_any_order(x, y, "--destination"@);
        value_is_of_any_order(x, y, "--manifest"@);
        switches_are(no_flags(), x);
        switches_are(no_flags(), y);
        options_differ();
        assert(x.contains(seq!["--resume"@]) <==> y.contains(seq!["--resume"@]));
        assert(x.contains(seq!["--quiesced"@]) <==> y.contains(seq!["--quiesced"@]));
        assert(with_groups(no_flags(), x) =~= with_groups(no_flags(), y));
    } else {
        let i = choose|i: int| 0 <= i < x.len() && !is_option(#[trigger] x[i]);
        assert(x.contains(x[i]));
        assert(y.contains(x[i]));
        let j = choose|j: int| 0 <= j < y.len() && y[j] == x[i];
        assert(!is_option(y[j]));
    }
}

/// The group is the last one of an option.
pub open spec fn is_last_of(
    groups: Seq<Seq<Seq<char>>>,
    option: Seq<char>,
    at: int,
) -> bool {
    &&& 0 <= at < groups.len()
    &&& groups[at][0] == option
    &&& forall|i: int| at < i < groups.len() ==> (#[trigger] groups[i])[0] != option
}

proof fn commands_differ()
    ensures
        "copy"@ != "verify"@,
{
    reveal_strlit("copy");
    reveal_strlit("verify");
    assert("copy"@.len() == 4 && "verify"@.len() == 6);
}

/// A command line whose words are all options, with a value for each of the three
/// that a transfer needs, asks for exactly that transfer: the command that its first
/// word names, the last value of each option, and a resumption where it is written. A
/// copy is refused without the word that writers are stopped, and a verification that
/// is to be resumed is refused too.
pub proof fn transfer_is_what_is_written(
    args: Seq<Seq<char>>,
    source: int,
    destination: int,
    manifest: int,
)
    requires
        args.len() > 0,
        args[0] == "copy"@ || args[0] == "verify"@,
        all_options(groups(args, 1)),
        is_last_of(groups(args, 1), "--source"@, source),
        is_last_of(groups(args, 1), "--destination"@, destination),
        is_last_of(groups(args, 1), "--manifest"@, manifest),
    ensures
        ({
            let written = groups(args, 1);
            let resume = written.contains(seq!["--resume"@]);
            let quiesced = written.contains(seq!["--quiesced"@]);
            let asked_for = |mode: Mode|
                Ok::<Option<OptionsView>, UsageView>(
                    Some(
                        OptionsView {
                            mode,
                            source: written[source][1],
                            destination: written[destination][1],
                            manifest: written[manifest][1],
                            resume,
                        },
                    ),
                );
            &&& args[0] == "copy"@ && quiesced ==> asked(args) == asked_for(Mode::Copy)
            &&& args[0] == "copy"@ && !quiesced ==> asked(args) == Err::<
                Option<OptionsView>,
                UsageView,
            >(UsageView::NotQuiesced)
            &&& args[0] == "verify"@ && !resume ==> asked(args) == asked_for(Mode::Verify)
            &&& args[0] == "verify"@ && resume ==> asked(args) == Err::<
                Option<OptionsView>,
                UsageView,
            >(UsageView::ResumeOnVerify)
        }),
{
    let written = groups(args, 1);
    commands_are_no_help();
    commands_differ();
    options_differ();
    flags_are_of_groups(args, 1, no_flags());
    value_is(no_flags(), written, "--source"@, source);
    value_is(no_flags(), written, "--destination"@, destination);
    value_is(no_flags(), written, "--manifest"@, manifest);
    switches_are(no_flags(), written);
}

/// The groups hold no words but those of the command line.
proof fn groups_are_of_words(args: Seq<Seq<char>>, from: int, i: int)
    requires
        0 <= from,
        0 <= i < groups(args, from).len(),
    ensures
        exists|k: int|
            {
                &&& from <= k < args.len()
                &&& groups(args, from)[i][0] == #[trigger] args[k]
                &&& groups(args, from)[i].len() == 2 ==> k + 1 < args.len() && groups(
                    args,
                    from,
                )[i][1] == args[k + 1]
            },
    decreases args.len() - from,
{
    let all = groups(args, from);
    let step: int = if takes_value(args[from]) && from + 1 < args.len() {
        2
    } else {
        1
    };
    if i == 0 {
        assert(all[0][0] == args[from]);
    } else {
        let rest = groups(args, from + step);
        assert(all[i] == rest[i - 1]);
        groups_are_of_words(args, from + step, i - 1);
    }
}

/// The value of an option that is set stands behind the word of the option.
proof fn value_was_written(groups: Seq<Seq<Seq<char>>>, option: Seq<char>) -> (at: int)
    requires
        all_options(groups),
        takes_value(option),
        value_in(with_groups(no_flags(), groups), option) is Some,
    ensures
        is_last_of(groups, option, at),
        groups[at].len() == 2,
        value_in(with_groups(no_flags(), groups), option) == Some(groups[at][1]),
{
    options_differ();
    if forall|i: int| 0 <= i < groups.len() ==> (#[trigger] groups[i])[0] != option {
        value_stays(no_flags(), groups, option);
        0
    } else {
        let at = last_of(groups, option, groups.len() as int);
        value_is(no_flags(), groups, option, at);
        assert(is_option(groups[at]));
        at
    }
}

/// The last of the first `n` groups that is of an option.
proof fn last_of(groups: Seq<Seq<Seq<char>>>, option: Seq<char>, n: int) -> (at: int)
    requires
        0 <= n <= groups.len(),
        exists|i: int| 0 <= i < n && (#[trigger] groups[i])[0] == option,
    ensures
        0 <= at < n,
        groups[at][0] == option,
        forall|i: int| at < i < n ==> (#[trigger] groups[i])[0] != option,
    decreases n,
{
    if groups[n - 1][0] == option {
        n - 1
    } else {
        let i = choose|i: int| 0 <= i < n && (#[trigger] groups[i])[0] == option;
        assert(0 <= i < n - 1);
        last_of(groups, option, n - 1)
    }
}

/// The word is followed by the value somewhere behind the command.
pub open spec fn is_written(args: Seq<Seq<char>>, option: Seq<char>, value: Seq<char>) -> bool {
    exists|i: int| 1 <= i < args.len() - 1 && #[trigger] args[i] == option && args[i + 1] == value
}

proof fn value_is_behind_its_word(args: Seq<Seq<char>>, option: Seq<char>)
    requires
        all_options(groups(args, 1)),
        takes_value(option),
        value_in(with_groups(no_flags(), groups(args, 1)), option) is Some,
    ensures
        is_written(
            args,
            option,
            value_in(with_groups(no_flags(), groups(args, 1)), option).unwrap(),
        ),
{
    let written = groups(args, 1);
    let at = value_was_written(written, option);
    groups_are_of_words(args, 1, at);
    let k = choose|k: int|
        {
            &&& 1 <= k < args.len()
            &&& written[at][0] == #[trigger] args[k]
            &&& written[at].len() == 2 ==> k + 1 < args.len() && written[at][1] == args[k + 1]
        };
    assert(args[k] == option && args[k + 1] == written[at][1]);
}

/// A transfer that is asked for was written: it is a verification exactly where the
/// first word says so, and a copy exactly where that does; a copy has the word that
/// writers are stopped, a resumption is a copy and has its word, and each value stands
/// behind the word of its option.
pub proof fn only_what_is_written_is_asked(args: Seq<Seq<char>>, options: OptionsView)
    requires
        asked(args) == Ok::<Option<OptionsView>, UsageView>(Some(options)),
    ensures
        args.len() > 0,
        options.mode is Verify <==> args[0] == "verify"@,
        options.mode is Copy <==> args[0] == "copy"@,
        options.mode is Copy ==> exists|i: int|
            1 <= i < args.len() && #[trigger] args[i] == "--quiesced"@,
        options.resume ==> options.mode is Copy && exists|i: int|
            1 <= i < args.len() && #[trigger] args[i] == "--resume"@,
        is_written(args, "--source"@, options.source),
        is_written(args, "--destination"@, options.destination),
        is_written(args, "--manifest"@, options.manifest),
{
    let written = groups(args, 1);
    commands_are_no_help();
    commands_differ();
    options_differ();
    flags_are_of_groups(args, 1, no_flags());
    switches_are(no_flags(), written);
    value_is_behind_its_word(args, "--source"@);
    value_is_behind_its_word(args, "--destination"@);
    value_is_behind_its_word(args, "--manifest"@);
    if options.mode is Copy {
        switch_is_a_word(args, "--quiesced"@);
    }
    if options.resume {
        switch_is_a_word(args, "--resume"@);
    }
}

proof fn switch_is_a_word(args: Seq<Seq<char>>, word: Seq<char>)
    requires
        groups(args, 1).contains(seq![word]),
    ensures
        exists|i: int| 1 <= i < args.len() && #[trigger] args[i] == word,
{
    let written = groups(args, 1);
    let i = choose|i: int| 0 <= i < written.len() && written[i] == seq![word];
    groups_are_of_words(args, 1, i);
    assert(written[i][0] == word);
}

/// Help is asked for by no words at all or by one of three words, and by nothing else;
/// another first word that is no command is refused by its name.
pub proof fn help_is_asked_by_its_words(args: Seq<Seq<char>>)
    ensures
        asked(args) == Ok::<Option<OptionsView>, UsageView>(None) <==> args.len() == 0 || args[0]
            == "help"@ || args[0] == "--help"@ || args[0] == "-h"@,
        args.len() > 0 && args[0] != "help"@ && args[0] != "--help"@ && args[0] != "-h"@ && args[0]
            != "copy"@ && args[0] != "verify"@ ==> asked(args) == Err::<
            Option<OptionsView>,
            UsageView,
        >(UsageView::UnknownCommand(args[0])),
{
}

/// A transfer without one of the three options that it needs, or with a word that is
/// no option, is refused.
pub proof fn incomplete_transfer_is_refused(args: Seq<Seq<char>>, option: Seq<char>)
    requires
        args.len() > 0,
        args[0] == "copy"@ || args[0] == "verify"@,
    ensures
        takes_value(option) && (forall|i: int|
            1 <= i < args.len() ==> #[trigger] args[i] != option) ==> asked(args) is Err,
        !all_options(groups(args, 1)) ==> asked(args) is Err,
{
    let written = groups(args, 1);
    commands_are_no_help();
    options_differ();
    flags_are_of_groups(args, 1, no_flags());
    if takes_value(option) && (forall|i: int| 1 <= i < args.len() ==> #[trigger] args[i] != option)
        && all_options(written) {
        if value_in(with_groups(no_flags(), written), option) is Some {
            value_is_behind_its_word(args, option);
        }
    }
}

} // verus!
