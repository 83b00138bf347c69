//! Handing a download to an external download manager: aria2 and Motrix
//! take a JSON-RPC `aria2.addUri` call, IDM is started with `/d url /f name
//! /n`. What is sent, and how each reply or failure is reported, is decided
//! here; the caller sends the call or starts the program.

use vstd::prelude::*;
use crate::errors::AppError;
use crate::models::{DownloaderType, ExternalDownloaderConfig};
use crate::text::{chars_of, extend_chars, extend_str, string_of};
use crate::transcript::{decimal, decimal_chars};

verus! {

/// The JSON-RPC method an aria2-compatible endpoint is called with.
pub const ADD_URI_METHOD: &'static str = "aria2.addUri";

/// The program started for IDM when no path is configured.
pub const IDM_PROGRAM: &'static str = "IDMan.exe";

/// The parameters of an `aria2.addUri` call, in order: the `token:` secret
/// (only where one is set), the list of addresses, and the options with the
/// output file name under `out`.
#[derive(Debug, Clone)]
pub struct AddUriRequest {
    pub token: Option<String>,
    pub uris: Vec<String>,
    pub out: String,
}

/// What handing a download over takes.
#[derive(Debug, Clone)]
pub enum DownloaderAction {
    /// Post an `aria2.addUri` call to `endpoint`.
    Rpc { endpoint: String, request: AddUriRequest },
    /// Start `program` with `args`.
    Launch { program: String, args: Vec<String> },
}

/// How an aria2-compatible endpoint answered a call that reached it.
#[derive(Debug, Clone)]
pub enum RpcReply {
    /// The body is no JSON; the parser's message.
    Unreadable(String),
    /// The body carries no `error` member.
    Accepted,
    /// The body carries an `error` member, with its `message` text if it
    /// has one.
    Refused(Option<String>),
}

/// The `token:` parameter for a secret: only a secret that is set and not
/// empty gives one.
pub open spec fn token_param(secret: Option<String>) -> Option<Seq<char>> {
    match secret {
        Some(s) => if s@.len() > 0 {
            Some("token:"@ + s@)
        } else {
            None
        },
        None => None,
    }
}

/// The program IDM is started as: the configured path, or `IDMan.exe`.
pub open spec fn idm_program(rpc_url: Seq<char>) -> Seq<char> {
    if rpc_url.len() == 0 {
        IDM_PROGRAM@
    } else {
        rpc_url
    }
}

/// The arguments IDM is started with.
pub open spec fn idm_args(url: Seq<char>, file_name: Seq<char>) -> Seq<Seq<char>> {
    seq!["/d"@, url, "/f"@, file_name, "/n"@]
}

/// The view of an optional string.
pub open spec fn opt_chars(o: Option<String>) -> Option<Seq<char>> {
    match o {
        Some(s) => Some(s@),
        None => None,
    }
}

/// The texts of a list of strings.
pub open spec fn texts(v: Seq<String>) -> Seq<Seq<char>> {
    v.map_values(|s: String| s@)
}

/// Whether `a` is what `config` asks to be done.
pub open spec fn is_action_for(a: DownloaderAction, config: ExternalDownloaderConfig) -> bool {
    match config.downloader_type {
        DownloaderType::Aria2 | DownloaderType::Motrix => a matches DownloaderAction::Rpc {
            endpoint,
            request,
        } && endpoint@ == config.rpc_url@ && opt_chars(request.token) == token_param(config.secret)
            && texts(request.uris@) == seq![config.download_url@] && request.out@
            == config.file_name@,
        DownloaderType::Idm => a matches DownloaderAction::Launch { program, args } && program@
            == idm_program(config.rpc_url@) && texts(args@) == idm_args(
            config.download_url@,
            config.file_name@,
        ),
    }
}

fn text_of(prefix: &str, rest: &str) -> (out: String)
    ensures
        out@ == prefix@ + rest@,
{
    let mut v = chars_of(prefix);
    extend_str(&mut v, rest);
    string_of(v.as_slice())
}

fn owned(s: &str) -> (out: String)
    ensures
        out@ == s@,
{
    let v = chars_of(s);
    string_of(v.as_slice())
}

/// What handing `config`'s download over takes (see `is_action_for`).
pub fn downloader_action(config: &ExternalDownloaderConfig) -> (a: DownloaderAction)
    ensures
        is_action_for(a, *config),
{
    match config.downloader_type {
        DownloaderType::Aria2 | DownloaderType::Motrix => {
            let token = match &config.secret {
                Some(s) => if chars_of(s.as_str()).len() > 0 {
                    proof {
                        assert(s@.len() > 0);
                    }
                    Some(text_of("token:", s.as_str()))
                } else {
                    proof {
                        assert(s@.len() == 0);
                    }
                    None
                },
                None => None,
            };
            let mut uris: Vec<String> = Vec::new();
            uris.push(owned(config.download_url.as_str()));
            proof {
                assert(texts(uris@) =~= seq![config.download_url@]);
            }
            DownloaderAction::Rpc {
                endpoint: owned(config.rpc_url.as_str()),
                request: AddUriRequest { token, uris, out: owned(config.file_name.as_str()) },
            }
        },
        DownloaderType::Idm => {
            let program = if chars_of(config.rpc_url.as_str()).len() == 0 {
                proof {
                    assert(config.rpc_url@.len() == 0);
                }
                owned(IDM_PROGRAM)
            } else {
                proof {
                    assert(config.rpc_url@.len() > 0);
                }
                owned(config.rpc_url.as_str())
            };
            let mut args: Vec<String> = Vec::new();
            args.push(owned("/d"));
            args.push(owned(config.download_url.as_str()));
            args.push(owned("/f"));
            args.push(owned(config.file_name.as_str()));
            args.push(owned("/n"));
            proof {
                assert(texts(args@) =~= idm_args(config.download_url@, config.file_name@));
            }
            DownloaderAction::Launch { program, args }
        },
    }
}

/// The error for an endpoint that could not be reached: worth retrying.
pub fn rpc_unreachable(reason: &str) -> (e: AppError)
    ensures
        e == (AppError::Network {
            message: e->Network_message,
            retryable: true,
        }),
        e->Network_message@ == "Failed to connect to RPC endpoint: "@ + reason@,
{
    AppError::Network { message: text_of("Failed to connect to RPC endpoint: ", reason), retryable: true }
}

/// The message for an answer that came back with a status other than 2xx.
pub open spec fn failed_status_message(status: u16, body: Seq<char>) -> Seq<char> {
    "RPC request failed (HTTP "@ + decimal(status as nat) + "): "@ + body
}

/// The outcome of a call that reached the endpoint: a status outside
/// 200–299 fails with the status and body; an unreadable body, or one
/// carrying an `error` member, fails with its message (`Unknown RPC error`
/// when the member has none); else the download was handed over. None of
/// these failures is worth retrying.
pub open spec fn rpc_outcome(status: u16, body: Seq<char>, reply: RpcReply) -> Result<(), Seq<char>> {
    if !(200 <= status <= 299) {
        Err(failed_status_message(status, body))
    } else {
        match reply {
            RpcReply::Unreadable(e) => Err("Failed to parse RPC response: "@ + e@),
            RpcReply::Accepted => Ok(()),
            RpcReply::Refused(m) => Err(
                "RPC error: "@ + match m {
                    Some(t) => t@,
                    None => "Unknown RPC error"@,
                },
            ),
        }
    }
}

/// The outcome of an `aria2.addUri` call that reached the endpoint (see
/// `rpc_outcome`); failures are network errors that are not retried.
pub fn rpc_reply_outcome(status: u16, body: &str, reply: &RpcReply) -> (r: Result<(), AppError>)
    ensures
        match rpc_outcome(status, body@, *reply) {
            Ok(()) => r is Ok,
            Err(m) => r matches Err(AppError::Network { message, retryable }) && message@ == m
                && !retryable,
        },
{
    if !(200 <= status && status <= 299) {
        let mut v = chars_of("RPC request failed (HTTP ");
        let d = decimal_chars(status as u64);
        extend_chars(&mut v, d.as_slice());
        extend_str(&mut v, "): ");
        extend_str(&mut v, body);
        return Err(AppError::Network { message: string_of(v.as_slice()), retryable: false });
    }
    match reply {
        RpcReply::Unreadable(e) => Err(
            AppError::Network {
                message: text_of("Failed to parse RPC response: ", e.as_str()),
                retryable: false,
            },
        ),
        RpcReply::Accepted => Ok(()),
        RpcReply::Refused(m) => {
            let text = match m {
                Some(t) => text_of("RPC error: ", t.as_str()),
                None => text_of("RPC error: ", "Unknown RPC error"),
            };
            Err(AppError::Network { message: text, retryable: false })
        },
    }
}

/// The error for a download manager that could not be started.
pub fn launch_failed(program: &str, reason: &str) -> (e: AppError)
    ensures
        e matches AppError::FileSystem { message, path } && message@ == "Failed to start IDM: "@
            + reason@ && path@ == program@,
{
    AppError::FileSystem { message: text_of("Failed to start IDM: ", reason), path: owned(program) }
}

} // verus!
