//! The errors that the command reports, with their messages.
use vstd::prelude::*;
use crate::scan::{join, join_chars, views};
use crate::text::{append_chars, append_str, chars_of, string_of};

verus! {

/// What the command refuses, and why.
pub enum SqError {
    /// A selector that is neither a URL nor a configured endpoint name, with
    /// the configured names in ascending order.
    UnknownEndpoint { name: String, known: Vec<String> },
    /// A built-in that needs an argument got none.
    MissingArgument { command: String },
    /// Read mode was given an update.
    UpdateInReadMode,
    /// `update` was given something that is not an update.
    NotAnUpdate,
    /// A destructive update without `--force`.
    Destructive { what: String },
    /// No query inline, in a file or on stdin.
    NoQuery,
}

/// The names listed after `Known:`.
pub open spec fn known_list(known: Seq<Seq<char>>) -> Seq<char> {
    if known.len() == 0 {
        "<none>"@
    } else {
        join(known, ", "@)
    }
}

/// The message for each error.
pub open spec fn message_spec(e: SqError) -> Seq<char> {
    match e {
        SqError::UnknownEndpoint { name, known } => "unknown endpoint '"@ + name@
            + "' (not a URL and not in config). Known: "@ + known_list(
            known@.map_values(|s: String| s@),
        ),
        SqError::MissingArgument { command } => "missing argument for `"@ + command@ + "`"@,
        SqError::UpdateInReadMode => "this looks like an update \u{2014} use `sq update '<...>'`"@,
        SqError::NotAnUpdate => "this does not look like an update \u{2014} use `sq '<query>'` for reads"@,
        SqError::Destructive { what } => "refusing destructive op ("@ + what@
            + "); re-run with --force if you really mean it"@,
        SqError::NoQuery => "no query given (pass inline, -f FILE, or via stdin)"@,
    }
}

impl SqError {
    /// The error's message.
    pub fn message(&self) -> (r: String)
        ensures
            r@ == message_spec(*self),
    {
        match self {
            SqError::UnknownEndpoint { name, known } => {
                let mut out = chars_of("unknown endpoint '");
                append_str(&mut out, name.as_str());
                append_str(&mut out, "' (not a URL and not in config). Known: ");
                if known.len() == 0 {
                    append_str(&mut out, "<none>");
                } else {
                    let mut parts: Vec<Vec<char>> = Vec::new();
                    let mut i: usize = 0;
                    while i < known.len()
                        invariant
                            i <= known.len(),
                            views(parts@) == known@.map_values(|s: String| s@).take(i as int),
                        decreases known.len() - i,
                    {
                        let c = chars_of(known[i].as_str());
                        let ghost before = views(parts@);
                        parts.push(c);
                        assert(views(parts@) =~= before.push(known@[i as int]@));
                        assert(views(parts@) =~= known@.map_values(|s: String| s@).take(i + 1));
                        i += 1;
                    }
                    assert(known@.map_values(|s: String| s@).take(known.len() as int)
                        =~= known@.map_values(|s: String| s@));
                    let sep = chars_of(", ");
                    let joined = join_chars(&parts, &sep);
                    append_chars(&mut out, &joined);
                }
                string_of(&out)
            },
            SqError::MissingArgument { command } => {
                let mut out = chars_of("missing argument for `");
                append_str(&mut out, command.as_str());
                append_str(&mut out, "`");
                string_of(&out)
            },
            SqError::UpdateInReadMode => "this looks like an update \u{2014} use `sq update '<...>'`".to_owned(),
            SqError::NotAnUpdate => "this does not look like an update \u{2014} use `sq '<query>'` for reads".to_owned(),
            SqError::Destructive { what } => {
                let mut out = chars_of("refusing destructive op (");
                append_str(&mut out, what.as_str());
                append_str(&mut out, "); re-run with --force if you really mean it");
                string_of(&out)
            },
            SqError::NoQuery => "no query given (pass inline, -f FILE, or via stdin)".to_owned(),
        }
    }
}

} // verus!
