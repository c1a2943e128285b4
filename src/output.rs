//! Rows of a finished scan: one `(subdomain, address)` pair per address, and
//! the text layouts built from rows whose addresses are already written out.

use crate::models::host::HostView;
use crate::models::ip::Ip;
use crate::models::scan::Scan;
use vstd::prelude::*;
use vstd::string::*;

verus! {

/// The pairs of one host, in the order of its addresses.
pub open spec fn host_pairs(h: HostView) -> Seq<(Seq<char>, Ip)> {
    h.ips.map_values(|ip: Ip| (h.name, ip))
}

/// The pairs of all hosts, host after host.
pub open spec fn pairs_of(hs: Seq<HostView>) -> Seq<(Seq<char>, Ip)>
    decreases hs.len(),
{
    if hs.len() == 0 {
        Seq::empty()
    } else {
        pairs_of(hs.drop_last()) + host_pairs(hs.last())
    }
}

/// The view of a row of text.
pub open spec fn row_view(r: (String, String)) -> (Seq<char>, Seq<char>) {
    (r.0@, r.1@)
}

/// Rows joined into lines: the two cells of each row with `sep` between
/// them, and the lines separated by `\n`, with none after the last.
pub open spec fn joined(rows: Seq<(Seq<char>, Seq<char>)>, sep: Seq<char>) -> Seq<char>
    decreases rows.len(),
{
    if rows.len() == 0 {
        Seq::empty()
    } else if rows.len() == 1 {
        rows[0].0 + sep + rows[0].1
    } else {
        joined(rows.drop_last(), sep) + seq!['\n'] + rows.last().0 + sep + rows.last().1
    }
}

/// The CSV header line.
pub const CSV_HEADER: &'static str = "Subdomain,Ip";

impl Scan {
    /// One `(subdomain, address)` pair for each address of each host, hosts
    /// in order and each host's addresses in order.
    pub fn pairs(&self) -> (r: Vec<(String, Ip)>)
        ensures
            r@.map_values(|p: (String, Ip)| (p.0@, p.1)) == pairs_of(self@.hosts),
    {
        let mut out: Vec<(String, Ip)> = Vec::new();
        let mut i: usize = 0;
        while i < self.hosts.len()
            invariant
                i <= self.hosts.len(),
                out@.map_values(|p: (String, Ip)| (p.0@, p.1)) == pairs_of(
                    self@.hosts.subrange(0, i as int),
                ),
            decreases self.hosts.len() - i,
        {
            let host = &self.hosts[i];
            let ghost start = out@.map_values(|p: (String, Ip)| (p.0@, p.1));
            let mut k: usize = 0;
            while k < host.ips.len()
                invariant
                    k <= host.ips.len(),
                    out@.map_values(|p: (String, Ip)| (p.0@, p.1)) == start + host_pairs(
                        host@,
                    ).subrange(0, k as int),
                decreases host.ips.len() - k,
            {
                let ghost before = out@;
                let name = host.name.clone();
                out.push((name, host.ips[k]));
                assert(out@.map_values(|p: (String, Ip)| (p.0@, p.1)) =~= before.map_values(
                    |p: (String, Ip)| (p.0@, p.1),
                ).push((host.name@, host.ips@[k as int])));
                assert(host_pairs(host@)[k as int] == (host.name@, host.ips@[k as int]));
                assert(out@.map_values(|p: (String, Ip)| (p.0@, p.1)) =~= start + host_pairs(
                    host@,
                ).subrange(0, k + 1));
                k = k + 1;
            }
            assert(host_pairs(host@).subrange(0, host.ips.len() as int) =~= host_pairs(host@));
            assert(self@.hosts.subrange(0, i + 1).drop_last() =~= self@.hosts.subrange(0, i as int));
            assert(self@.hosts.subrange(0, i + 1).last() == host@);
            i = i + 1;
        }
        assert(self@.hosts.subrange(0, self.hosts.len() as int) =~= self@.hosts);
        out
    }
}

/// The rows as lines of `<cell><sep><cell>`, separated by `\n`.
pub fn join_rows(rows: &Vec<(String, String)>, sep: &str) -> (r: String)
    ensures
        r@ == joined(rows@.map_values(|x: (String, String)| row_view(x)), sep@),
{
    let ghost v = rows@.map_values(|x: (String, String)| row_view(x));
    let mut out = String::new();
    let mut i: usize = 0;
    proof {
        reveal_strlit("\n");
        assert(v.subrange(0, 0) =~= Seq::<(Seq<char>, Seq<char>)>::empty());
    }
    while i < rows.len()
        invariant
            i <= rows.len(),
            v == rows@.map_values(|x: (String, String)| row_view(x)),
            out@ == joined(v.subrange(0, i as int), sep@),
            "\n"@ == seq!['\n'],
        decreases rows.len() - i,
    {
        if i > 0 {
            out.append("\n");
        }
        out.append(rows[i].0.as_str());
        out.append(sep);
        out.append(rows[i].1.as_str());
        assert(v.subrange(0, i + 1).drop_last() =~= v.subrange(0, i as int));
        assert(v.subrange(0, i + 1).last() == row_view(rows@[i as int]));
        if i == 0 {
            assert(v.subrange(0, 1)[0] == row_view(rows@[0]));
        }
        assert(out@ =~= joined(v.subrange(0, i + 1), sep@));
        i = i + 1;
    }
    assert(v.subrange(0, rows.len() as int) =~= v);
    out
}

/// The rows as CSV: the header line `Subdomain,Ip`, a line break, then the
/// rows joined with `,`.
pub fn rows_to_csv(rows: &Vec<(String, String)>) -> (r: String)
    ensures
        r@ == CSV_HEADER@ + seq!['\n'] + joined(rows@.map_values(|x: (String, String)| row_view(x)), ","@),
{
    let mut out = String::from_str(CSV_HEADER);
    proof {
        reveal_strlit("\n");
    }
    out.append("\n");
    let body = join_rows(rows, ",");
    out.append(body.as_str());
    out
}

} // verus!
