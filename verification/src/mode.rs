use vstd::prelude::*;

verus! {

/// Whether the program runs as the server or as an interactive client.
#[derive(PartialEq, Eq, Debug, Clone, Copy, Structural)]
pub enum OperationMode {
    Server,
    Client,
}

/// The mode that the first command-line argument selects, or the message the
/// program stops with: `c` selects the client, `s` the server.
pub open spec fn spec_get_mode(first_arg: Option<Seq<char>>) -> Result<OperationMode, Seq<char>> {
    match first_arg {
        None => Err(
            seq![
                'N', 'o', ' ', 'O', 'p', 'e', 'r', 'a', 't', 'i', 'o', 'n', ' ', 'M', 'o', 'd',
                'e', ' ', 'd', 'e', 't', 'e', 'c', 't', 'e', 'd',
            ],
        ),
        Some(a) => if a == seq!['c'] {
            Ok(OperationMode::Client)
        } else if a == seq!['s'] {
            Ok(OperationMode::Server)
        } else {
            Err(seq!['I', 'n', 'v', 'a', 'l', 'i', 'd', ' ', 'M', 'o', 'd', 'e', ':', ' '] + a)
        },
    }
}

/// The answer of `get_mode`, as characters.
pub open spec fn mode_view(r: Result<OperationMode, String>) -> Result<OperationMode, Seq<char>> {
    match r {
        Ok(m) => Ok(m),
        Err(e) => Err(e@),
    }
}

/// Reads the operation mode from the first command-line argument, if any.
pub fn get_mode(first_arg: Option<&str>) -> (r: Result<OperationMode, String>)
    ensures
        mode_view(r) == spec_get_mode(
            match first_arg {
                Some(a) => Some(a@),
                None => None,
            },
        ),
{
    match first_arg {
        None => {
            proof {
                reveal_strlit("No Operation Mode detected");
            }
            let message = String::from_str("No Operation Mode detected");
            assert(message@ =~= spec_get_mode(None)->Err_0);
            Err(message)
        },
        Some(arg) => {
            let n = arg.unicode_len();
            if n == 1 {
                let c = arg.get_char(0);
                assert(arg@ =~= seq![c]);
                if c == 'c' {
                    return Ok(OperationMode::Client);
                } else if c == 's' {
                    return Ok(OperationMode::Server);
                }
            }
            assert(arg@ != seq!['c']);
            assert(arg@ != seq!['s']);
            proof {
                reveal_strlit("Invalid Mode: ");
            }
            let mut message = String::from_str("Invalid Mode: ");
            message.append(arg);
            assert(message@ =~= spec_get_mode(Some(arg@))->Err_0);
            Err(message)
        },
    }
}

} // verus!
