//! Runtime errors carrying a message and the source spans implicated.
use vstd::prelude::*;

verus! {

/// Model of a backtrace: the message and the recorded spans, innermost
/// first.
pub struct BtM {
    pub msg: Seq<char>,
    pub sites: Seq<(nat, nat)>,
}

/// A runtime error: a message plus an ordered list of `(start, length)`
/// source spans; the failing site is pushed first.
#[derive(Debug)]
pub struct Backtrace {
    backtrace: Vec<(usize, usize)>,
    error: String,
}

impl View for Backtrace {
    type V = BtM;

    closed spec fn view(&self) -> BtM {
        BtM {
            msg: self.error@,
            sites: self.backtrace@.map_values(|s: (usize, usize)| (s.0 as nat, s.1 as nat)),
        }
    }
}

impl Backtrace {
    pub fn new(error: String) -> (r: Backtrace)
        ensures
            r@.msg == error@,
            r@.sites == Seq::<(nat, nat)>::empty(),
    {
        let r = Backtrace { backtrace: Vec::new(), error };
        proof {
            assert(r@.sites =~= Seq::<(nat, nat)>::empty());
        }
        r
    }

    pub fn starting_at(error: String, error_site: (usize, usize)) -> (r: Backtrace)
        ensures
            r@.msg == error@,
            r@.sites == seq![(error_site.0 as nat, error_site.1 as nat)],
    {
        let mut backtrace = Backtrace { backtrace: Vec::new(), error };
        backtrace.push(error_site);
        proof {
            assert(backtrace@.sites =~= seq![(error_site.0 as nat, error_site.1 as nat)]);
        }
        backtrace
    }

    pub fn push(&mut self, error_site: (usize, usize))
        ensures
            final(self)@.msg == old(self)@.msg,
            final(self)@.sites == old(self)@.sites.push(
                (error_site.0 as nat, error_site.1 as nat),
            ),
    {
        self.backtrace.push(error_site);
        proof {
            assert(self@.sites =~= old(self)@.sites.push((error_site.0 as nat, error_site.1 as nat)));
        }
    }

    pub fn get_error(&self) -> (r: String)
        ensures
            r@ == self@.msg,
    {
        self.error.clone()
    }

    /// The recorded spans, innermost first.
    pub fn iter(&self) -> (r: &Vec<(usize, usize)>)
        ensures
            r@.map_values(|s: (usize, usize)| (s.0 as nat, s.1 as nat)) == self@.sites,
    {
        &self.backtrace
    }
}

} // verus!
