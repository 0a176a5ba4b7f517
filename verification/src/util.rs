//! Small things that every part uses.

use crate::transport::TransportError;
use vstd::prelude::*;

verus! {

/// The exit code of a run that failed.
pub const EXIT_NOT_OKAY: i32 = 1;

/// The exit code of a run that went well.
pub const EXIT_OKAY: i32 = 0;

/// The name of the environment variable that sets the log level.
pub const LOGGING_ENV_VARIABLE: &'static str = "UDPX_LOG_LEVEL";

/// The log level of a quiet run.
pub const DEFAULT_LOG_LEVEL: &'static str = "info";

/// The log level of a verbose run.
pub const VERBOSE_LOG_LEVEL: &'static str = "debug";

/// The log level of a run: `debug` if it is verbose, else `info`.
pub fn log_level(verbose: bool) -> (level: &'static str)
    ensures
        level@ == if verbose {
            VERBOSE_LOG_LEVEL@
        } else {
            DEFAULT_LOG_LEVEL@
        },
{
    if verbose {
        VERBOSE_LOG_LEVEL
    } else {
        DEFAULT_LOG_LEVEL
    }
}

/// The exit code that stands for an error: that of a run that failed.
pub fn err_to_exit_code(err: &TransportError) -> (code: i32)
    ensures
        code == EXIT_NOT_OKAY,
{
    EXIT_NOT_OKAY
}

/// The texts of a list of strings.
pub open spec fn texts(items: Seq<String>) -> Seq<Seq<char>> {
    items.map_values(|s: String| s@)
}

/// The items with `sep` between each two of them.
pub open spec fn joined(items: Seq<Seq<char>>, sep: Seq<char>) -> Seq<char>
    decreases items.len(),
{
    if items.len() == 0 {
        Seq::empty()
    } else if items.len() == 1 {
        items[0]
    } else {
        joined(items.drop_last(), sep) + sep + items.last()
    }
}

/// Joining what can be written as text.
pub trait JoinIter {
    /// The items with `sep` between each two of them.
    fn join(self, sep: &str) -> String;
}

impl JoinIter for Vec<String> {
    fn join(self, sep: &str) -> (s: String)
        ensures
            s@ == joined(texts(self@), sep@),
    {
        let ghost all = texts(self@);
        let mut s = String::new();
        if self.len() == 0 {
            return s;
        }
        s.append(self[0].as_str());
        proof {
            assert(all.take(1) =~= seq![all[0]]);
            assert(s@ =~= joined(all.take(1), sep@));
        }
        let mut i: usize = 1;
        while i < self.len()
            invariant
                1 <= i <= self@.len(),
                all == texts(self@),
                s@ == joined(all.take(i as int), sep@),
            decreases self@.len() - i,
        {
            let ghost before = s@;
            s.append(sep);
            s.append(self[i].as_str());
            proof {
                let next = all.take(i + 1);
                assert(next.drop_last() =~= all.take(i as int));
                assert(next.last() == all[i as int]);
                assert(s@ =~= before + sep@ + all[i as int]);
            }
            i += 1;
        }
        proof {
            assert(all.take(i as int) =~= all);
        }
        s
    }
}

/// Cutting items off the front of a collection.
pub trait TruncateLeft {
    /// How many items the collection holds.
    spec fn length(&self) -> nat;

    /// Cuts the first `n` items off.
    fn truncate_left(&mut self, n: usize)
        requires
            n <= old(self).length(),
        ensures
            final(self).length() == old(self).length() - n,
    ;
}

impl<T> TruncateLeft for Vec<T> {
    open spec fn length(&self) -> nat {
        self@.len()
    }

    fn truncate_left(&mut self, n: usize)
        ensures
            final(self)@ == old(self)@.skip(n as int),
    {
        let mut rest = self.split_off(n);
        let ghost kept = rest@;
        self.clear();
        self.append(&mut rest);
        assert(self@ =~= kept);
        assert(kept =~= old(self)@.skip(n as int));
    }
}

} // verus!
