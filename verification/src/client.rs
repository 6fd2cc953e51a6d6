//! The pure half of the tile client: building the request URL and the
//! per-tile file path for a tile address, and deciding what a reply means.
//! The network transfer and the file write themselves are left to the
//! embedding program, which reports back what happened as plain values.

use vstd::prelude::*;
use crate::grid::TileAddress;
use crate::scheduler::FetchOutcome;

verus! {

/// Fixed zoom level of the remote tiling scheme.
pub const TILE_ZOOM: u64 = 9;

pub open spec fn digit_char(d: int) -> char {
    if d == 0 {
        '0'
    } else if d == 1 {
        '1'
    } else if d == 2 {
        '2'
    } else if d == 3 {
        '3'
    } else if d == 4 {
        '4'
    } else if d == 5 {
        '5'
    } else if d == 6 {
        '6'
    } else if d == 7 {
        '7'
    } else if d == 8 {
        '8'
    } else {
        '9'
    }
}

/// The decimal digits of a nonnegative number, most significant first.
pub open spec fn dec_digits(n: int) -> Seq<char>
    decreases n,
{
    if n < 10 {
        seq![digit_char(n)]
    } else {
        dec_digits(n / 10).push(digit_char(n % 10))
    }
}

fn digit_str(d: u64) -> (r: &'static str)
    requires
        d < 10,
    ensures
        r@ == seq![digit_char(d as int)],
{
    if d == 0 {
        proof {
            reveal_strlit("0");
            assert("0"@ =~= seq![digit_char(0)]);
        }
        "0"
    } else if d == 1 {
        proof {
            reveal_strlit("1");
            assert("1"@ =~= seq![digit_char(1)]);
        }
        "1"
    } else if d == 2 {
        proof {
            reveal_strlit("2");
            assert("2"@ =~= seq![digit_char(2)]);
        }
        "2"
    } else if d == 3 {
        proof {
            reveal_strlit("3");
            assert("3"@ =~= seq![digit_char(3)]);
        }
        "3"
    } else if d == 4 {
        proof {
            reveal_strlit("4");
            assert("4"@ =~= seq![digit_char(4)]);
        }
        "4"
    } else if d == 5 {
        proof {
            reveal_strlit("5");
            assert("5"@ =~= seq![digit_char(5)]);
        }
        "5"
    } else if d == 6 {
        proof {
            reveal_strlit("6");
            assert("6"@ =~= seq![digit_char(6)]);
        }
        "6"
    } else if d == 7 {
        proof {
            reveal_strlit("7");
            assert("7"@ =~= seq![digit_char(7)]);
        }
        "7"
    } else if d == 8 {
        proof {
            reveal_strlit("8");
            assert("8"@ =~= seq![digit_char(8)]);
        }
        "8"
    } else {
        proof {
            reveal_strlit("9");
            assert("9"@ =~= seq![digit_char(9)]);
        }
        "9"
    }
}

/// Renders a number in decimal.
pub fn u64_to_dec(n: u64) -> (r: String)
    ensures
        r@ == dec_digits(n as int),
    decreases n,
{
    if n < 10 {
        let mut s = String::new();
        s.append(digit_str(n));
        proof {
            assert(s@ =~= dec_digits(n as int));
        }
        s
    } else {
        let mut s = u64_to_dec(n / 10);
        s.append(digit_str(n % 10));
        proof {
            assert(s@ =~= dec_digits(n as int));
        }
        s
    }
}

/// The request URL for one tile: the fixed layer, style, image format and
/// tiling-scheme selectors of the remote endpoint, with the fixed zoom and
/// the tile's row and column substituted in.
pub open spec fn tile_url_chars(base: Seq<char>, zoom: int, row: int, col: int) -> Seq<char> {
    base + "?layer=ortho&style=default&format=image%2Fpng&tilematrixset=fixed&zoom="@
        + dec_digits(zoom) + "&row="@ + dec_digits(row) + "&col="@ + dec_digits(col)
}

pub fn build_tile_url(base: &str, addr: TileAddress) -> (r: String)
    ensures
        r@ == tile_url_chars(base@, TILE_ZOOM as int, addr.row as int, addr.col as int),
{
    let mut s = base.to_owned();
    s.append("?layer=ortho&style=default&format=image%2Fpng&tilematrixset=fixed&zoom=");
    let z = u64_to_dec(TILE_ZOOM);
    s.append(z.as_str());
    s.append("&row=");
    let rs = u64_to_dec(addr.row as u64);
    s.append(rs.as_str());
    s.append("&col=");
    let cs = u64_to_dec(addr.col as u64);
    s.append(cs.as_str());
    proof {
        assert(s@ =~= tile_url_chars(base@, TILE_ZOOM as int, addr.row as int, addr.col as int));
    }
    s
}

/// The deterministic file name a tile is saved under, from its address alone.
pub open spec fn tile_file_name_chars(row: int, col: int) -> Seq<char> {
    "tile_"@ + dec_digits(row) + "_"@ + dec_digits(col) + ".png"@
}

pub fn tile_file_name(addr: TileAddress) -> (r: String)
    ensures
        r@ == tile_file_name_chars(addr.row as int, addr.col as int),
{
    let mut s = String::new();
    s.append("tile_");
    let rs = u64_to_dec(addr.row as u64);
    s.append(rs.as_str());
    s.append("_");
    let cs = u64_to_dec(addr.col as u64);
    s.append(cs.as_str());
    s.append(".png");
    proof {
        assert(s@ =~= tile_file_name_chars(addr.row as int, addr.col as int));
    }
    s
}

/// A tile's file path inside the per-run tile directory.
pub open spec fn tile_file_path_chars(tiles_dir: Seq<char>, row: int, col: int) -> Seq<char> {
    tiles_dir + "/"@ + tile_file_name_chars(row, col)
}

pub fn tile_file_path(tiles_dir: &str, addr: TileAddress) -> (r: String)
    ensures
        r@ == tile_file_path_chars(tiles_dir@, addr.row as int, addr.col as int),
{
    let mut s = tiles_dir.to_owned();
    s.append("/");
    let name = tile_file_name(addr);
    s.append(name.as_str());
    proof {
        assert(s@ =~= tile_file_path_chars(tiles_dir@, addr.row as int, addr.col as int));
    }
    s
}

/// HTTP statuses that count as success.
pub open spec fn is_success_status(status: int) -> bool {
    200 <= status < 300
}

pub fn status_is_success(status: u16) -> (r: bool)
    ensures
        r == is_success_status(status as int),
{
    200 <= status && status < 300
}

/// What the transport handed back for one tile request: a response status,
/// or no response at all (timeout, connection failure, name resolution).
pub enum HttpReply {
    Status { code: u16 },
    TransportFailed { message: String },
}

/// What the client does next with a reply: persist the body, or record the
/// tile's failure.
pub enum ReplyAction {
    SaveBody,
    Fail { outcome: FetchOutcome },
}

/// The tile client's response policy: a success status means the body is
/// saved; a non-success status is a failure carrying exactly that status;
/// no response is a transport failure carrying the transport's message.
pub fn decide_reply(reply: HttpReply) -> (r: ReplyAction)
    ensures
        reply matches HttpReply::Status { code } ==> (if is_success_status(code as int) {
            r is SaveBody
        } else {
            r == (ReplyAction::Fail { outcome: FetchOutcome::HttpError { status: code } })
        }),
        reply matches HttpReply::TransportFailed { message } ==> r == (ReplyAction::Fail {
            outcome: FetchOutcome::TransportError { message },
        }),
{
    match reply {
        HttpReply::Status { code } => {
            if status_is_success(code) {
                ReplyAction::SaveBody
            } else {
                ReplyAction::Fail { outcome: FetchOutcome::HttpError { status: code } }
            }
        },
        HttpReply::TransportFailed { message } => {
            ReplyAction::Fail { outcome: FetchOutcome::TransportError { message } }
        },
    }
}

/// How the attempt to persist a saved body ended.
pub enum SaveReport {
    Wrote { bytes: u64 },
    SaveFailed { message: String },
}

/// The tile client's outcome for a body it tried to persist: the byte count
/// and path on success, a write failure carrying the writer's message
/// otherwise.
pub fn saved_outcome(path: String, report: SaveReport) -> (r: FetchOutcome)
    ensures
        report matches SaveReport::Wrote { bytes } ==> r == (FetchOutcome::Fetched {
            bytes_written: bytes,
            path,
        }),
        report matches SaveReport::SaveFailed { message } ==> r == (FetchOutcome::WriteError {
            message,
        }),
{
    match report {
        SaveReport::Wrote { bytes } => FetchOutcome::Fetched { bytes_written: bytes, path },
        SaveReport::SaveFailed { message } => FetchOutcome::WriteError { message },
    }
}

} // verus!
