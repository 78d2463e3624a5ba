//! What a connection can read, and how its errors read.
use vstd::prelude::*;
use vstd::utf8::*;

use crate::pg_client::error;
use crate::pg_client::error::PgClientError;
use crate::pg_client::login_laws::number_at;
use crate::pg_client::proto;
use crate::replay::connection;
use crate::replay::connection::ReplayError;
use crate::utils::parse;
use crate::utils::text;

verus! {

/// Bytes that do not hold a whole message can be waited for. A whole one must be long enough
/// for its own length and for what its type says: eight bytes of a key; and of a wish to log
/// in four, and four more of salt where its code is five.
pub proof fn law_parseable(b: Seq<u8>)
    ensures
        b.len() < 5 ==> connection::parseable(b),
        b.len() >= 5 && b.len() < 1 + number_at(b, 1) ==> connection::parseable(b),
        b.len() >= 5 && b.len() >= 1 + number_at(b, 1) ==> {
            let n = number_at(b, 1) - 4;
            connection::parseable(b) <==> {
                &&& n >= 0
                &&& b[0] == 75 ==> n >= 8
                &&& b[0] == 82 ==> n >= 4
                &&& b[0] == 82 && b[5] == 0 && b[6] == 0 && b[7] == 0 && b[8] == 5 ==> n >= 8
            }
        },
{
    if b.len() >= 5 {
        assert(b.skip(1)[0] == b[1] && b.skip(1)[1] == b[2] && b.skip(1)[2] == b[3] && b.skip(1)[3]
            == b[4]);
        assert(parse::be32(b.skip(1)) == number_at(b, 1));
        if b.len() >= 1 + number_at(b, 1) && number_at(b, 1) >= 4 {
            let data = b.subrange(5, 1 + number_at(b, 1));
            if data.len() >= 4 {
                assert(data[0] == b[5] && data[1] == b[6] && data[2] == b[7] && data[3] == b[8]);
            }
            assert(proto::first_frame(b) == Some((b[0], 1 + number_at(b, 1))));
        }
    }
}

/// A password can be sent where the length of its message without the type byte is not more
/// than 2147483647, and that of the whole message not more than memory can hold.
pub proof fn law_sendable(pass: Seq<char>)
    ensures
        connection::sendable(pass) <==> {
            let n = encode_utf8(pass).len();
            n <= 2147483642 && 1 + 4 + n + 1 <= isize::MAX
        },
{
}

/// The same error of either kind of connection reads the same: what went wrong, and behind a
/// colon the method, the words of the server, or those of the system.
pub proof fn law_errors_read_alike(code: i32, s: String)
    ensures
        connection::error_text(ReplayError::ConnectionClosed) == error::error_text(
            PgClientError::ConnectionClosed,
        ),
        connection::error_text(ReplayError::ConnectionClosed) == "connection closed"@,
        connection::error_text(ReplayError::UnsupportedAuth(code)) == error::error_text(
            PgClientError::UnsupportedAuth(code),
        ),
        connection::error_text(ReplayError::UnsupportedAuth(code)) == "unsupperted auth method: "@
            + text::signed_decimal(code as int),
        connection::error_text(ReplayError::ErrorResponse(s)) == error::error_text(
            PgClientError::ErrorResponse(s),
        ),
        connection::error_text(ReplayError::ErrorResponse(s)) == "server responded with error: "@
            + s@,
        connection::error_text(ReplayError::IoError(s)) == error::error_text(
            PgClientError::IoError(s),
        ),
        connection::error_text(ReplayError::IoError(s)) == "I/O error: "@ + s@,
        error::error_text(PgClientError::MalformedMessage) == "malformed message"@,
{
}

} // verus!
