//! The decisions of a client that logs in to a server.
use vstd::prelude::*;
use vstd::utf8::*;

use crate::pg_client::error::PgClientError;
use crate::pg_client::proto;
use crate::pg_client::proto::{
    encode_password, encode_startup, from_utf8_lossy, hash_md5_password, try_read_frame,
    Authentication, BackendFrame, BackendMessage,
};
use crate::utils::parse::bytes_at;
use crate::utils::text::copied;
use crate::utils::wire::push_bytes;

verus! {

/// Who logs in, and to what.
pub struct PgClientConfig {
    pub user: String,
    pub password: Option<Vec<u8>>,
    pub dbname: String,
    pub application_name: String,
}

impl Default for PgClientConfig {
    fn default() -> (r: Self)
        ensures
            r.user@.len() == 0,
            r.password is None,
            r.dbname@.len() == 0,
            r.application_name@.len() == 0,
    {
        PgClientConfig {
            user: String::new(),
            password: None,
            dbname: String::new(),
            application_name: String::new(),
        }
    }
}

/// The parameters of the startup message.
pub open spec fn startup_params(app: Seq<char>, user: Seq<char>, dbname: Seq<char>) -> Seq<
    (Seq<char>, Seq<char>),
> {
    seq![("application_name"@, app), ("user"@, user), ("database"@, dbname)]
}

/// Encodes the startup message with the three parameters that a client gives.
pub fn startup_message(app: &str, user: &str, dbname: &str) -> (r: Vec<u8>)
    requires
        4 + proto::startup_body(startup_params(app@, user@, dbname@)).len() <= i32::MAX,
    ensures
        r@ == proto::startup_bytes(startup_params(app@, user@, dbname@)),
{
    let mut params: Vec<(String, String)> = Vec::new();
    params.push((copied("application_name"), copied(app)));
    params.push((copied("user"), copied(user)));
    params.push((copied("database"), copied(dbname)));
    assert(proto::param_views(params@) =~= startup_params(app@, user@, dbname@));
    encode_startup(params.as_slice())
}

/// Whether a password fits in a message.
pub open spec fn fits(pass: Seq<char>) -> bool {
    4 + encode_utf8(pass).len() + 1 <= i32::MAX
}

/// The answer to the server's wish: a message, nothing, or an error that it
/// cannot be met.
pub open spec fn auth_answer(auth: Authentication, user: Seq<char>, pass: Seq<char>) -> Result<
    Option<Seq<u8>>,
    i32,
> {
    match auth {
        Authentication::Accepted => Ok(None),
        Authentication::Cleartext => Ok(Some(proto::password_bytes(pass))),
        Authentication::Md5 { salt } => Ok(
            Some(proto::password_bytes(proto::md5_password(user, pass, salt@))),
        ),
        Authentication::Unsupported(code) => Err(code),
    }
}

/// Answers the server's wish with the given password.
pub fn answer_auth(auth: &Authentication, user: &str, pass: &str) -> (r: Result<
    Option<Vec<u8>>,
    PgClientError,
>)
    requires
        auth is Cleartext ==> fits(pass@),
    ensures
        match auth_answer(*auth, user@, pass@) {
            Ok(None) => r matches Ok(None),
            Ok(Some(bytes)) => r matches Ok(Some(v)) && v@ == bytes,
            Err(code) => r matches Err(PgClientError::UnsupportedAuth(c)) && c == code,
        },
{
    match auth {
        Authentication::Accepted => Ok(None),
        Authentication::Cleartext => Ok(Some(encode_password(pass))),
        Authentication::Md5 { salt } => {
            let hashed = hash_md5_password(user, pass, salt);
            proof {
                is_ascii_chars_encode_utf8(hashed@);
            }
            Ok(Some(encode_password(hashed.as_str())))
        },
        Authentication::Unsupported(code) => Err(PgClientError::UnsupportedAuth(*code)),
    }
}

/// The password as text: what `String::from_utf8_lossy` makes of it, and the
/// empty text where there is none.
pub open spec fn password_text(password: Option<Vec<u8>>) -> Seq<char> {
    match password {
        Some(bytes) => proto::lossy_text(bytes@),
        None => Seq::empty(),
    }
}

/// Answers the server's wish. Nothing is answered where the password is so long
/// that its length does not fit in a message.
pub fn handle_auth(config: &PgClientConfig, auth: &Authentication) -> (r: Option<
    Result<Option<Vec<u8>>, PgClientError>,
>)
    ensures
        match r {
            Some(answer) => match auth_answer(
                *auth,
                config.user@,
                password_text(config.password),
            ) {
                Ok(None) => answer matches Ok(None),
                Ok(Some(bytes)) => answer matches Ok(Some(v)) && v@ == bytes,
                Err(code) => answer matches Err(PgClientError::UnsupportedAuth(c)) && c == code,
            },
            None => auth is Cleartext && !fits(password_text(config.password)),
        },
        r is None <==> auth is Cleartext && !fits(password_text(config.password)),
{
    let pass = match &config.password {
        Some(bytes) => from_utf8_lossy(bytes.as_slice()),
        None => String::new(),
    };
    assert(pass@ =~= password_text(config.password));
    let len: usize = pass.as_str().as_bytes().len();
    let cleartext = match auth {
        Authentication::Cleartext => true,
        _ => false,
    };
    if cleartext && len > i32::MAX as usize - 5 {
        return None;
    }
    Some(answer_auth(auth, config.user.as_str(), pass.as_str()))
}

/// What to do after a message of the server, while logging in.
pub enum LoginStep {
    /// Send these bytes.
    Send(Vec<u8>),
    /// Wait for the next message.
    Wait,
    /// The client is logged in.
    Ready,
    /// Give up.
    Fail(PgClientError),
    /// The password is so long that it cannot be sent.
    LongPassword,
}

/// Decides what to do after a message of the server, while logging in.
pub fn login_step(config: &PgClientConfig, msg: BackendMessage<'_>) -> (r: LoginStep)
    ensures
        match msg {
            BackendMessage::Authentication(auth) => {
                let pass = password_text(config.password);
                if auth is Cleartext && !fits(pass) {
                    r is LongPassword
                } else {
                    match auth_answer(auth, config.user@, pass) {
                        Ok(None) => r is Wait,
                        Ok(Some(bytes)) => r matches LoginStep::Send(v) && v@ == bytes,
                        Err(code) => r matches LoginStep::Fail(PgClientError::UnsupportedAuth(c))
                            && c == code,
                    }
                }
            },
            BackendMessage::ReadyForQuery => r is Ready,
            BackendMessage::ErrorResponse(e) => r matches LoginStep::Fail(
                PgClientError::ErrorResponse(e2),
            ) && e2@ == e@,
            _ => r is Wait,
        },
{
    match msg {
        BackendMessage::Authentication(auth) => match handle_auth(config, &auth) {
            Some(Ok(Some(bytes))) => LoginStep::Send(bytes),
            Some(Ok(None)) => LoginStep::Wait,
            Some(Err(e)) => LoginStep::Fail(e),
            None => LoginStep::LongPassword,
        },
        BackendMessage::ReadyForQuery => LoginStep::Ready,
        BackendMessage::ErrorResponse(e) => LoginStep::Fail(PgClientError::ErrorResponse(e)),
        _ => LoginStep::Wait,
    }
}

/// Whether a frame that the bytes start with has room for its own length.
pub open spec fn sound(b: Seq<u8>) -> bool {
    proto::first_frame(b) matches Some((_, len)) ==> len >= 5
}

/// The bytes that came from the server and were not handed out yet.
pub struct PgClientReader {
    read_buf: Vec<u8>,
    parsed: usize,
}

impl View for PgClientReader {
    type V = Seq<u8>;

    closed spec fn view(&self) -> Seq<u8> {
        self.read_buf@.skip(self.parsed as int)
    }
}

impl PgClientReader {
    /// What was handed out is part of what came.
    #[verifier::type_invariant]
    spec fn within(self) -> bool {
        self.parsed <= self.read_buf@.len()
    }

    /// Nothing came yet.
    pub fn new() -> (r: Self)
        ensures
            r@ == Seq::<u8>::empty(),
    {
        let r = PgClientReader { read_buf: Vec::new(), parsed: 0 };
        assert(r@ =~= Seq::<u8>::empty());
        r
    }

    /// Takes in bytes from the server.
    pub fn feed(&mut self, chunk: &[u8])
        ensures
            final(self)@ == old(self)@ + chunk@,
    {
        proof {
            use_type_invariant(&*self);
        }
        let rest = bytes_at(
            self.read_buf.as_slice(),
            self.parsed,
            self.read_buf.len() - self.parsed,
        );
        let mut read_buf: Vec<u8> = Vec::new();
        push_bytes(&mut read_buf, rest);
        push_bytes(&mut read_buf, chunk);
        *self = PgClientReader { read_buf, parsed: 0 };
        assert(self@ =~= old(self)@ + chunk@);
    }

    /// Whether a frame that can be handed out has room for its own length.
    pub fn is_sound(&self) -> (r: bool)
        ensures
            r == sound(self@),
    {
        proof {
            use_type_invariant(self);
        }
        let rest = bytes_at(
            self.read_buf.as_slice(),
            self.parsed,
            self.read_buf.len() - self.parsed,
        );
        assert(rest@ =~= self@);
        match try_read_frame(rest) {
            Some((_, len)) => len >= 5,
            None => true,
        }
    }

    /// Hands out the next frame, if all of it came.
    pub fn next_frame(&mut self) -> (r: Option<BackendFrame<'_>>)
        requires
            sound(old(self)@),
        ensures
            match proto::first_frame(old(self)@) {
                Some((tag, len)) => r matches Some(f) && f.tag == tag && f.data@ == old(
                    self,
                )@.subrange(5, len) && final(self)@ == old(self)@.skip(len),
                None => r is None && final(self)@ == old(self)@,
            },
    {
        proof {
            use_type_invariant(&*self);
        }
        let start: usize = self.parsed;
        let ghost before = self@;
        let rest = bytes_at(self.read_buf.as_slice(), start, self.read_buf.len() - start);
        assert(rest@ =~= before);
        match try_read_frame(rest) {
            Some((tag, len)) => {
                self.parsed = start + len;
                assert(self@ =~= before.skip(len as int));
                let data = bytes_at(self.read_buf.as_slice(), start + 5, len - 5);
                assert(data@ =~= before.subrange(5, len as int));
                Some(BackendFrame { tag, data })
            },
            None => None,
        }
    }
}

/// A whole frame stays the first whatever comes after it.
pub proof fn law_first_frame_stays(b: Seq<u8>, more: Seq<u8>)
    requires
        proto::first_frame(b) is Some,
    ensures
        proto::first_frame(b + more) == proto::first_frame(b),
{
    assert((b + more).skip(1) =~= b.skip(1) + more);
}

} // verus!
