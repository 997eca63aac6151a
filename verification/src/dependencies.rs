//! Finding the helper programs on the machine.

use crate::desktops::{CommandLine, CommandLineView};
use crate::error::{WallSwitchError, WallSwitchErrorView, WallSwitchResult};
use crate::text::{
    contains, contains_spec, from_utf8_lossy, lemma_texts_push, split, split_spec, texts,
    to_chars, utf8_lossy_spec,
};
use vstd::prelude::*;
use vstd::string::StringExecFns;

verus! {

/// Whether a token of a listing looks like the path of the program `cmd`:
/// it is not empty and holds both `bin` and the name of the program.
pub open spec fn is_program_path(token: Seq<char>, cmd: Seq<char>) -> bool {
    token.len() > 0 && contains_spec(token, "bin"@) && contains_spec(token, cmd)
}

/// The first of the tokens that looks like the path of `cmd`.
pub open spec fn first_program_path(tokens: Seq<Seq<char>>, cmd: Seq<char>) -> Option<Seq<char>>
    decreases tokens.len(),
{
    if tokens.len() == 0 {
        None
    } else {
        match first_program_path(tokens.drop_last(), cmd) {
            Some(token) => Some(token),
            None => if is_program_path(tokens.last(), cmd) {
                Some(tokens.last())
            } else {
                None
            },
        }
    }
}

/// The path of `cmd` in a listing whose entries stand between blanks and
/// line ends.
pub open spec fn find_program_spec(cmd: Seq<char>, listing: Seq<char>) -> Option<Seq<char>> {
    first_program_path(split_spec(listing, '\n', ' '), cmd)
}

/// What is reported of a program that a listing does not hold.
pub open spec fn not_found(cmd: Seq<char>) -> Seq<char> {
    "'"@ + cmd + "' not found in system paths"@
}

/// What is reported of a program whose path leads to no file.
pub open spec fn not_a_file(cmd: Seq<char>, path: Seq<char>) -> Seq<char> {
    "'"@ + cmd + "' found at '"@ + path + "' but it's not a file"@
}

proof fn lemma_first_program_path_prefix(tokens: Seq<Seq<char>>, k: int, cmd: Seq<char>)
    requires
        0 <= k <= tokens.len(),
        first_program_path(tokens.take(k), cmd) is Some,
    ensures
        first_program_path(tokens, cmd) == first_program_path(tokens.take(k), cmd),
    decreases tokens.len() - k,
{
    if k < tokens.len() {
        assert(tokens.drop_last().take(k) =~= tokens.take(k));
        lemma_first_program_path_prefix(tokens.drop_last(), k, cmd);
    } else {
        assert(tokens.take(k) =~= tokens);
    }
}

/// The path of the program `cmd` in a listing.
pub fn find_program(cmd: &str, listing: &str) -> (r: Option<String>)
    ensures
        match r {
            Some(path) => find_program_spec(cmd@, listing@) == Some(path@),
            None => find_program_spec(cmd@, listing@) is None,
        },
{
    let tokens = split(listing, '\n', ' ');
    let ghost all = texts(tokens@);
    let mut i: usize = 0;
    assert(all.take(0) =~= Seq::<Seq<char>>::empty());
    while i < tokens.len()
        invariant
            i <= tokens@.len(),
            all == texts(tokens@),
            all == split_spec(listing@, '\n', ' '),
            first_program_path(all.take(i as int), cmd@) is None,
        decreases tokens@.len() - i,
    {
        let token = tokens[i].as_str();
        proof {
            let next = all.take(i + 1);
            assert(next.drop_last() =~= all.take(i as int));
            assert(next.last() == token@);
        }
        if to_chars(token).len() > 0 && contains(token, "bin") && contains(token, cmd) {
            proof {
                lemma_first_program_path_prefix(all, i + 1, cmd@);
            }
            return Some(token.to_string());
        }
        i += 1;
    }
    assert(all.take(tokens@.len() as int) =~= all);
    None
}

/// The path of the program `cmd` in the output of a command that lists
/// where programs are.
pub fn bytes_to_path(cmd: &str, bytes: &[u8]) -> (r: WallSwitchResult<String>)
    ensures
        match r {
            Ok(path) => find_program_spec(cmd@, utf8_lossy_spec(bytes@)) == Some(path@),
            Err(e) => find_program_spec(cmd@, utf8_lossy_spec(bytes@)) is None && e@
                == WallSwitchErrorView::UnableToFind(not_found(cmd@)),
        },
{
    let listing = from_utf8_lossy(bytes);
    match find_program(cmd, listing.as_str()) {
        Some(path) => Ok(path),
        None => {
            let mut text = String::from_str("'");
            text.append(cmd);
            text.append("' not found in system paths");
            Err(WallSwitchError::UnableToFind(text))
        },
    }
}

/// The path of the program `cmd`, once it is known whether it leads to a
/// file.
pub fn confirm_program(cmd: &str, path: String, is_file: bool) -> (r: WallSwitchResult<String>)
    ensures
        match r {
            Ok(confirmed) => is_file && confirmed == path,
            Err(e) => !is_file && e@ == WallSwitchErrorView::UnableToFind(not_a_file(cmd@, path@)),
        },
{
    if is_file {
        Ok(path)
    } else {
        let mut text = String::from_str("'");
        text.append(cmd);
        text.append("' found at '");
        text.append(path.as_str());
        text.append("' but it's not a file");
        Err(WallSwitchError::UnableToFind(text))
    }
}

/// The command that lists where the program `cmd` is.
pub fn where_is(cmd: &str) -> (r: CommandLine)
    ensures
        r@ == (CommandLineView { program: "whereis"@, arguments: seq!["-b"@, cmd@] }),
{
    let mut arguments: Vec<String> = Vec::new();
    let flag = "-b".to_string();
    let name = cmd.to_string();
    proof {
        lemma_texts_push(arguments@, flag);
        lemma_texts_push(arguments@.push(flag), name);
    }
    arguments.push(flag);
    arguments.push(name);
    assert(texts(arguments@) =~= seq!["-b"@, cmd@]);
    CommandLine { program: "whereis".to_string(), arguments }
}

/// The path of the compositor: that of `magick` where it was found, else
/// that of `convert`.
pub fn get_magick_path(magick: Option<String>, convert: Option<String>) -> (r: WallSwitchResult<
    String,
>)
    ensures
        match r {
            Ok(path) => Some(path) == magick || (magick is None && Some(path) == convert),
            Err(e) => magick is None && convert is None && e@ == WallSwitchErrorView::UnableToFind(
                "magick"@,
            ),
        },
{
    match magick {
        Some(path) => Ok(path),
        None => match convert {
            Some(path) => Ok(path),
            None => Err(WallSwitchError::UnableToFind("magick".to_string())),
        },
    }
}

/// The path of `feh` where it was found.
pub fn get_feh_path(feh: Option<String>) -> (r: WallSwitchResult<String>)
    ensures
        match r {
            Ok(path) => Some(path) == feh,
            Err(e) => feh is None && e@ == WallSwitchErrorView::UnableToFind("feh"@),
        },
{
    match feh {
        Some(path) => Ok(path),
        None => Err(WallSwitchError::UnableToFind("feh".to_string())),
    }
}

} // verus!
