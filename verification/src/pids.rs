//! Finding the other running instances of the program.

use crate::decimal::{decimal, parse_decimal_spec, parse_u32, u64_to_string};
use crate::desktops::{command_views, CommandLine, CommandLineView};
use crate::text::{
    from_utf8_lossy, lemma_texts_push, split, split_spec, texts, utf8_lossy_spec,
};
use vstd::prelude::*;

verus! {

/// The process number that a token denotes, if it denotes one.
pub open spec fn pid_of(token: Seq<char>) -> Option<u32> {
    match parse_decimal_spec(token, u32::MAX as nat) {
        Ok(n) => Some(n as u32),
        Err(_) => None,
    }
}

/// The numbers among the tokens of a text: the text is cut at line ends and
/// blanks, and what is no decimal number is left out.
pub open spec fn numbers_in(text: Seq<char>) -> Seq<u32> {
    split_spec(text, '\n', ' ').filter_map(|token: Seq<char>| pid_of(token))
}

/// The numbers in the output of a command, read as UTF-8 with what is
/// ill-formed replaced.
pub open spec fn numbers_spec(bytes: Seq<u8>) -> Seq<u32> {
    numbers_in(utf8_lossy_spec(bytes))
}

/// Every number stands before the larger ones, and none stands twice.
pub open spec fn strictly_increasing(s: Seq<u32>) -> bool {
    forall|i: int, j: int| 0 <= i < j < s.len() ==> s[i] < s[j]
}

/// The numbers among the tokens of a text.
pub fn text_to_numbers(text: &str) -> (r: Vec<u32>)
    ensures
        r@ == numbers_in(text@),
{
    let tokens = split(text, '\n', ' ');
    let ghost all = texts(tokens@);
    let ghost read = |token: Seq<char>| pid_of(token);
    let mut numbers: Vec<u32> = Vec::new();
    let mut k: usize = 0;
    assert(all.take(0) =~= Seq::<Seq<char>>::empty());
    while k < tokens.len()
        invariant
            k <= tokens@.len(),
            all == texts(tokens@),
            read == |token: Seq<char>| pid_of(token),
            numbers@ == all.take(k as int).filter_map(read),
        decreases tokens@.len() - k,
    {
        proof {
            let next = all.take(k + 1);
            assert(next.drop_last() =~= all.take(k as int));
            assert(next.last() == tokens@[k as int]@);
        }
        match parse_u32(tokens[k].as_str()) {
            Ok(n) => {
                numbers.push(n);
                assert(numbers@ =~= all.take(k + 1).filter_map(read));
            },
            Err(_) => {},
        }
        k += 1;
    }
    assert(all.take(tokens@.len() as int) =~= all);
    numbers
}

/// The numbers in the output of a command.
pub fn bytes_to_numbers(bytes: &[u8]) -> (r: Vec<u32>)
    ensures
        r@ == numbers_spec(bytes@),
{
    let text = from_utf8_lossy(bytes);
    text_to_numbers(text.as_str())
}

/// Puts `pid` at its place among the numbers, unless it is there.
fn insert_pid(pids: &mut Vec<u32>, pid: u32)
    requires
        strictly_increasing(old(pids)@),
    ensures
        strictly_increasing(final(pids)@),
        forall|x: u32| final(pids)@.contains(x) <==> old(pids)@.contains(x) || x == pid,
{
    let mut k: usize = 0;
    while k < pids.len() && pids[k] < pid
        invariant
            k <= pids@.len(),
            pids@ == old(pids)@,
            forall|i: int| 0 <= i < k ==> pids@[i] < pid,
        decreases pids@.len() - k,
    {
        k += 1;
    }
    if k < pids.len() && pids[k] == pid {
        assert(pids@.contains(pid));
        return ;
    }
    let ghost before = pids@;
    pids.insert(k, pid);
    let ghost after = pids@;
    assert forall|i: int, j: int| 0 <= i < j < after.len() implies after[i] < after[j] by {
        if j < k {
            assert(after[i] == before[i] && after[j] == before[j]);
        } else if j == k {
            assert(after[i] == before[i]);
        } else if i < k {
            assert(after[i] == before[i] && after[j] == before[j - 1]);
        } else if i == k {
            assert(after[j] == before[j - 1]);
            assert(before[k as int] <= before[j - 1]);
        } else {
            assert(after[i] == before[i - 1] && after[j] == before[j - 1]);
        }
    }
    assert forall|x: u32| after.contains(x) <==> before.contains(x) || x == pid by {
        if after.contains(x) {
            let i = choose|i: int| 0 <= i < after.len() && after[i] == x;
            if i < k {
                assert(before[i] == x);
            } else if i > k {
                assert(before[i - 1] == x);
            }
        }
        if before.contains(x) {
            let i = choose|i: int| 0 <= i < before.len() && before[i] == x;
            if i < k {
                assert(after[i] == x);
            } else {
                assert(after[i + 1] == x);
            }
        }
        if x == pid {
            assert(after[k as int] == x);
        }
    }
}

/// The process numbers that two commands printed, in rising order, each
/// once.
pub fn get_pids(pgrep_stdout: &[u8], pidof_stdout: &[u8]) -> (r: Vec<u32>)
    ensures
        strictly_increasing(r@),
        forall|x: u32|
            r@.contains(x) <==> numbers_spec(pgrep_stdout@).contains(x) || numbers_spec(
                pidof_stdout@,
            ).contains(x),
{
    let first = bytes_to_numbers(pgrep_stdout);
    let second = bytes_to_numbers(pidof_stdout);
    let mut pids: Vec<u32> = Vec::new();
    let mut i: usize = 0;
    while i < first.len()
        invariant
            i <= first@.len(),
            strictly_increasing(pids@),
            forall|x: u32| pids@.contains(x) <==> first@.take(i as int).contains(x),
        decreases first@.len() - i,
    {
        insert_pid(&mut pids, first[i]);
        i += 1;
        assert forall|x: u32| pids@.contains(x) <==> first@.take(i as int).contains(x) by {
            let shorter = first@.take(i - 1);
            let longer = first@.take(i as int);
            if shorter.contains(x) {
                let m = choose|m: int| 0 <= m < shorter.len() && shorter[m] == x;
                assert(longer[m] == x);
            }
            if longer.contains(x) {
                let m = choose|m: int| 0 <= m < longer.len() && longer[m] == x;
                if m < i - 1 {
                    assert(shorter[m] == x);
                }
            }
            if x == first@[i - 1] {
                assert(longer[i - 1] == x);
            }
        }
    }
    assert(first@.take(first@.len() as int) =~= first@);
    let mut j: usize = 0;
    while j < second.len()
        invariant
            j <= second@.len(),
            strictly_increasing(pids@),
            forall|x: u32|
                pids@.contains(x) <==> first@.contains(x) || second@.take(j as int).contains(x),
        decreases second@.len() - j,
    {
        insert_pid(&mut pids, second[j]);
        j += 1;
        assert forall|x: u32|
            pids@.contains(x) <==> first@.contains(x) || second@.take(j as int).contains(x) by {
            let shorter = second@.take(j - 1);
            let longer = second@.take(j as int);
            if shorter.contains(x) {
                let m = choose|m: int| 0 <= m < shorter.len() && shorter[m] == x;
                assert(longer[m] == x);
            }
            if longer.contains(x) {
                let m = choose|m: int| 0 <= m < longer.len() && longer[m] == x;
                if m < j - 1 {
                    assert(shorter[m] == x);
                }
            }
            if x == second@[j - 1] {
                assert(longer[j - 1] == x);
            }
        }
    }
    assert(second@.take(second@.len() as int) =~= second@);
    pids
}

/// The command that ends the process `pid_number`.
pub open spec fn kill_command(pid_number: u32) -> CommandLineView {
    CommandLineView { program: "kill"@, arguments: seq!["-9"@, decimal(pid_number as nat)] }
}

/// The command that ends the process `pid_number`.
pub fn kill_app(pid_number: u32) -> (r: CommandLine)
    ensures
        r@ == kill_command(pid_number),
{
    let mut arguments: Vec<String> = Vec::new();
    let flag = "-9".to_string();
    let number = u64_to_string(pid_number as u64);
    proof {
        lemma_texts_push(arguments@, flag);
        lemma_texts_push(arguments@.push(flag), number);
    }
    arguments.push(flag);
    arguments.push(number);
    assert(texts(arguments@) =~= seq!["-9"@, decimal(pid_number as nat)]);
    CommandLine { program: "kill".to_string(), arguments }
}

/// The commands that end every process of `pids` but the one that runs:
/// one for each number other than `current_pid`, in the order of `pids`.
pub fn kill_other_instances(pids: &[u32], current_pid: u32) -> (r: Vec<CommandLine>)
    ensures
        command_views(r@) == pids@.filter(|pid: u32| pid != current_pid).map_values(
            |pid: u32| kill_command(pid),
        ),
{
    let ghost other = |pid: u32| pid != current_pid;
    let ghost command = |pid: u32| kill_command(pid);
    let mut commands: Vec<CommandLine> = Vec::new();
    let mut i: usize = 0;
    proof {
        reveal(Seq::filter);
        assert(pids@.take(0) =~= Seq::<u32>::empty());
        assert(command_views(commands@) =~= pids@.take(0).filter(other).map_values(
            command,
        ));
    }
    while i < pids.len()
        invariant
            i <= pids@.len(),
            other == |pid: u32| pid != current_pid,
            command == |pid: u32| kill_command(pid),
            command_views(commands@) == pids@.take(i as int).filter(
                other,
            ).map_values(command),
        decreases pids@.len() - i,
    {
        proof {
            reveal(Seq::filter);
            let next = pids@.take(i + 1);
            assert(next.drop_last() =~= pids@.take(i as int));
            assert(next.last() == pids@[i as int]);
        }
        if pids[i] != current_pid {
            let ghost before = command_views(commands@);
            commands.push(kill_app(pids[i]));
            assert(command_views(commands@) =~= before.push(
                kill_command(pids@[i as int]),
            ));
            assert(command_views(commands@) =~= pids@.take(i + 1).filter(
                other,
            ).map_values(command));
        }
        i += 1;
    }
    assert(pids@.take(pids@.len() as int) =~= pids@);
    commands
}

} // verus!
