//! The command lines of the downloader and of the player.

use crate::decimal::{parse_i32, parse_i32_spec};
use vstd::prelude::*;
use vstd::string::*;

verus! {

/// The command-line parameters of the downloader.
#[derive(Debug, PartialEq, Eq)]
pub struct Arguments {
    pub program_name: String,
    pub game_id: i32,
    pub observer_id: i32,
    pub output_path: String,
    /// The user to authenticate as, where `-a` or `--auth` names one.
    pub auth_username: Option<String>,
}

/// What an [`Arguments`] value holds, with texts as sequences of characters.
pub struct ArgumentsView {
    pub program_name: Seq<char>,
    pub game_id: i32,
    pub observer_id: i32,
    pub output_path: Seq<char>,
    pub auth_username: Option<Seq<char>>,
}

impl View for Arguments {
    type V = ArgumentsView;

    open spec fn view(&self) -> ArgumentsView {
        ArgumentsView {
            program_name: self.program_name@,
            game_id: self.game_id,
            observer_id: self.observer_id,
            output_path: self.output_path@,
            auth_username: match self.auth_username {
                Some(name) => Some(name@),
                None => None,
            },
        }
    }
}

/// Whether an argument is the option that names the user.
pub open spec fn is_auth_flag(arg: Seq<char>) -> bool {
    arg == seq!['-', 'a'] || arg == seq!['-', '-', 'a', 'u', 't', 'h']
}

/// What a scan of the arguments has found: the user, if one was named, and
/// the free arguments in order.
pub struct Scanned {
    pub auth_username: Option<Seq<char>>,
    pub free: Seq<Seq<char>>,
}

/// Scans the arguments from index `i` on, given what was found before it.
/// The option takes the argument that follows it as the user's name; every
/// other argument is free. An option without a name, or a second option,
/// makes the command line malformed.
pub open spec fn scan_from(args: Seq<Seq<char>>, i: int, found: Scanned) -> Option<Scanned>
    decreases args.len() - i,
{
    if i >= args.len() {
        Some(found)
    } else if is_auth_flag(args[i]) {
        if i + 1 >= args.len() || found.auth_username is Some {
            None
        } else {
            scan_from(
                args,
                i + 2,
                Scanned { auth_username: Some(args[i + 1]), free: found.free },
            )
        }
    } else {
        scan_from(
            args,
            i + 1,
            Scanned { auth_username: found.auth_username, free: found.free.push(args[i]) },
        )
    }
}

/// The parameters that a command line denotes. The first argument is the
/// program's name. Of the free arguments that follow, the first three are
/// the game id, the observer id and the output path; further ones are
/// ignored. A command line without a program name, with fewer than three
/// free arguments, with an id that is no 32-bit decimal integer, or with a
/// malformed option denotes nothing.
pub open spec fn parsed(args: Seq<Seq<char>>) -> Option<ArgumentsView> {
    if args.len() == 0 {
        None
    } else {
        match scan_from(args, 1, Scanned { auth_username: None, free: Seq::empty() }) {
            None => None,
            Some(found) => if found.free.len() < 3 {
                None
            } else {
                match (parse_i32_spec(found.free[0]), parse_i32_spec(found.free[1])) {
                    (Some(game_id), Some(observer_id)) => Some(
                        ArgumentsView {
                            program_name: args[0],
                            game_id,
                            observer_id,
                            output_path: found.free[2],
                            auth_username: found.auth_username,
                        },
                    ),
                    _ => None,
                }
            },
        }
    }
}

/// The views of the arguments.
pub open spec fn texts(args: Seq<String>) -> Seq<Seq<char>> {
    args.map_values(|s: String| s@)
}

/// Decides whether an argument is the option that names the user.
fn is_auth_flag_exec(arg: &str) -> (r: bool)
    ensures
        r == is_auth_flag(arg@),
{
    let n = arg.unicode_len();
    if n == 2 {
        let r = arg.get_char(0) == '-' && arg.get_char(1) == 'a';
        assert(r ==> arg@ =~= seq!['-', 'a']);
        r
    } else if n == 6 {
        let r = arg.get_char(0) == '-' && arg.get_char(1) == '-' && arg.get_char(2) == 'a'
            && arg.get_char(3) == 'u' && arg.get_char(4) == 't' && arg.get_char(5) == 'h';
        assert(r ==> arg@ =~= seq!['-', '-', 'a', 'u', 't', 'h']);
        r
    } else {
        false
    }
}

/// Parses the downloader's command line. `None` means that the invocation is
/// malformed and the usage is to be shown.
pub fn parse_args(args: &Vec<String>) -> (r: Option<Arguments>)
    ensures
        match r {
            Some(a) => parsed(texts(args@)) == Some(a@),
            None => parsed(texts(args@)) is None,
        },
{
    let n = args.len();
    if n == 0 {
        return None;
    }
    let ghost all = texts(args@);
    let mut auth_username: Option<String> = None;
    let mut free: Vec<&String> = Vec::new();
    let mut i: usize = 1;
    assert(free@.map_values(|s: &String| s@) =~= Seq::<Seq<char>>::empty());
    while i < n
        invariant
            1 <= i <= n,
            n == args@.len(),
            all == texts(args@),
            free@.len() <= i,
            scan_from(all, 1, Scanned { auth_username: None, free: Seq::empty() }) == scan_from(
                all,
                i as int,
                Scanned {
                    auth_username: match auth_username {
                        Some(name) => Some(name@),
                        None => None,
                    },
                    free: free@.map_values(|s: &String| s@),
                },
            ),
        decreases n - i,
    {
        let arg = &args[i];
        if is_auth_flag_exec(arg.as_str()) {
            if i + 1 >= n || auth_username.is_some() {
                return None;
            }
            auth_username = Some(args[i + 1].clone());
            i += 2;
        } else {
            let ghost before = free@.map_values(|s: &String| s@);
            free.push(arg);
            assert(free@.map_values(|s: &String| s@) =~= before.push(arg@));
            i += 1;
        }
    }
    if free.len() < 3 {
        return None;
    }
    let game_id = match parse_i32(free[0].as_str()) {
        Some(id) => id,
        None => {
            return None;
        },
    };
    let observer_id = match parse_i32(free[1].as_str()) {
        Some(id) => id,
        None => {
            return None;
        },
    };
    Some(
        Arguments {
            program_name: args[0].clone(),
            game_id,
            observer_id,
            output_path: free[2].clone(),
            auth_username,
        },
    )
}

/// Parses the player's command line: the program's name and the path of
/// the game's data file, nothing else. `None` means that the invocation is
/// malformed and the usage is to be shown.
pub fn parse_player_args(args: &Vec<String>) -> (r: Option<String>)
    ensures
        match r {
            Some(data_path) => args@.len() == 2 && data_path@ == args@[1]@,
            None => args@.len() != 2,
        },
{
    if args.len() != 2 {
        None
    } else {
        Some(args[1].clone())
    }
}

} // verus!
