//! The daemon's own bookkeeping: its in-memory log and its control signals.

use vstd::prelude::*;
use crate::text::{cat, chars_of, from_utf8_lossy, lossy_utf8, opt_view, string_of};

verus! {

/// The id sent on the restart channel to restart the web server instead of
/// a route.
pub const WEB_RESTART_SIGNAL: i64 = -1;

/// The most log lines kept before the oldest is dropped.
pub const LOG_LIMIT: usize = 1000;

/// What a message on the restart channel asks for.
#[derive(PartialEq, Eq, Structural)]
pub enum RestartCommand {
    /// Restart the web server with the saved settings.
    RestartWeb,
    /// Stop the route with this id; the next reload starts it again.
    StopRoute(i64),
}

/// What a message on the restart channel asks for.
pub fn restart_command(id: i64) -> (r: RestartCommand)
    ensures
        r == (if id == WEB_RESTART_SIGNAL {
            RestartCommand::RestartWeb
        } else {
            RestartCommand::StopRoute(id)
        }),
{
    if id == WEB_RESTART_SIGNAL {
        RestartCommand::RestartWeb
    } else {
        RestartCommand::StopRoute(id)
    }
}

/// The log filter for the daemon at level `level`.
pub fn log_filter(level: &str) -> (r: String)
    ensures
        r@ == "tor_router="@ + level@ + ",hyper=info,reqwest=info,h2=info"@,
{
    let a = cat("tor_router=", level);
    cat(a.as_str(), ",hyper=info,reqwest=info,h2=info")
}

/// The log level the daemon starts with: the one set in the environment
/// when there is one, else the saved one; `info` when that is empty.
pub open spec fn start_level(env: Option<Seq<char>>, saved: Seq<char>) -> Seq<char> {
    let l = match env {
        Some(e) => e,
        None => saved,
    };
    if l.len() == 0 {
        "info"@
    } else {
        l
    }
}

/// The log level the daemon starts with.
pub fn start_log_level(env: Option<String>, saved: &str) -> (r: String)
    ensures
        r@ == start_level(opt_view(env), saved@),
{
    let l = match env {
        Some(e) => e,
        None => string_of(saved),
    };
    if chars_of(l.as_str()).len() == 0 {
        string_of("info")
    } else {
        l
    }
}

/// The in-memory log after one more line: once it holds more than
/// `LOG_LIMIT` lines, the oldest is dropped first.
pub open spec fn logged(logs: Seq<Seq<char>>, line: Seq<char>) -> Seq<Seq<char>> {
    if logs.len() > LOG_LIMIT {
        logs.drop_first().push(line)
    } else {
        logs.push(line)
    }
}

/// The in-memory log as values.
pub open spec fn log_view(logs: Seq<String>) -> Seq<Seq<char>> {
    logs.map_values(|s: String| s@)
}

/// Writes log output both to the terminal and to the in-memory log that the
/// panel shows.
pub struct AppLogger;

impl AppLogger {
    /// The logger.
    pub fn new() -> (r: Self)
        ensures
            r == AppLogger,
    {
        AppLogger
    }

    /// Records a chunk of log output, read as UTF-8 with invalid bytes
    /// replaced, in the in-memory log.
    pub fn record(&self, logs: &mut Vec<String>, buf: &[u8])
        ensures
            log_view(final(logs)@) == logged(log_view(old(logs)@), lossy_utf8(buf@)),
    {
        let text = from_utf8_lossy(buf);
        let ghost before = log_view(logs@);
        if logs.len() > LOG_LIMIT {
            logs.remove(0);
            proof {
                assert(log_view(logs@) =~= before.drop_first());
            }
        }
        let ghost mid = log_view(logs@);
        logs.push(text);
        proof {
            assert(log_view(logs@) =~= mid.push(lossy_utf8(buf@)));
        }
    }
}

/// The in-memory log never holds more than `LOG_LIMIT + 1` lines once it
/// holds no more than that.
pub proof fn law_log_bounded(logs: Seq<Seq<char>>, line: Seq<char>)
    requires
        logs.len() <= LOG_LIMIT + 1,
    ensures
        logged(logs, line).len() <= LOG_LIMIT + 1,
        logged(logs, line).last() == line,
{
}

} // verus!
