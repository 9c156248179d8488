//! Pieces of a probe run: the port list, the `host:port` target string,
//! the choice among resolved addresses, and the total number of connects.

use vstd::prelude::*;
use vstd::string::*;

verus! {

/// IP version preferred when resolving a target.
#[derive(PartialEq, Eq, Structural, Clone, Copy, Debug)]
pub enum IpVersion {
    V4,
    V6,
}

/// Tokens of `s` split on every comma, in order, empty tokens included.
pub open spec fn split_commas(s: Seq<char>) -> Seq<Seq<char>>
    decreases s.len(),
{
    if s.len() == 0 {
        seq![Seq::<char>::empty()]
    } else {
        let t = split_commas(s.drop_last());
        if s.last() == ',' {
            t.push(Seq::<char>::empty())
        } else {
            t.drop_last().push(t.last().push(s.last()))
        }
    }
}

/// The tokens joined back together with a comma between neighbours.
pub open spec fn join_commas(ts: Seq<Seq<char>>) -> Seq<char>
    decreases ts.len(),
{
    if ts.len() == 0 {
        Seq::empty()
    } else if ts.len() == 1 {
        ts[0]
    } else {
        join_commas(ts.drop_last()).push(',') + ts.last()
    }
}

/// Splitting a port list loses nothing and cuts only at commas: there is
/// at least one token, no token holds a comma, and joining the tokens with
/// commas gives the list back.
pub proof fn lemma_split_join(s: Seq<char>)
    ensures
        split_commas(s).len() >= 1,
        join_commas(split_commas(s)) == s,
        forall|i: int, j: int|
            0 <= i < split_commas(s).len() && 0 <= j < split_commas(s)[i].len() ==> #[trigger] split_commas(s)[i][j] != ',',
    decreases s.len(),
{
    if s.len() == 0 {
        assert(join_commas(split_commas(s)) =~= s);
    } else {
        let p = s.drop_last();
        let c = s.last();
        lemma_split_join(p);
        let t = split_commas(p);
        let u = split_commas(s);
        assert(s =~= p.push(c));
        if c == ',' {
            assert(u == t.push(Seq::<char>::empty()));
            assert(u.drop_last() =~= t);
            assert(join_commas(u) =~= s);
            assert forall|i: int, j: int|
                0 <= i < u.len() && 0 <= j < u[i].len() implies #[trigger] u[i][j] != ',' by {
                assert(u[i] == t[i]);
            }
        } else {
            let w = t.last().push(c);
            assert(u == t.drop_last().push(w));
            assert(u.drop_last() =~= t.drop_last());
            if t.len() == 1 {
                assert(join_commas(u) == w);
                assert(join_commas(u) =~= s);
            } else {
                let a = join_commas(t.drop_last()).push(',');
                assert(join_commas(t) == a + t.last());
                assert(join_commas(u) == a + w);
                assert(a + w =~= (a + t.last()).push(c));
                assert(join_commas(u) =~= s);
            }
            assert forall|i: int, j: int|
                0 <= i < u.len() && 0 <= j < u[i].len() implies #[trigger] u[i][j] != ',' by {
                if i < u.len() - 1 {
                    assert(u[i] == t[i]);
                } else if j < w.len() - 1 {
                    assert(u[i][j] == t[t.len() - 1][j]);
                }
            }
        }
    }
}

/// The character views of a list of strings.
pub open spec fn views_of(v: Seq<String>) -> Seq<Seq<char>> {
    v.map_values(|t: String| t@)
}

/// Splits a comma-separated port list into its tokens. Nothing is trimmed
/// or checked: `"80,,443"` gives `"80"`, `""` and `"443"`.
pub fn split_ports(ports: &str) -> (r: Vec<String>)
    ensures
        views_of(r@) == split_commas(ports@),
{
    let n = ports.unicode_len();
    let mut out: Vec<String> = Vec::new();
    let mut start: usize = 0;
    let mut i: usize = 0;
    proof {
        assert(ports@.take(0) =~= Seq::<char>::empty());
        assert(ports@.subrange(0, 0) =~= Seq::<char>::empty());
        assert(views_of(out@).push(ports@.subrange(0, 0)) =~= split_commas(ports@.take(0)));
    }
    while i < n
        invariant
            n == ports@.len(),
            0 <= start <= i <= n,
            views_of(out@).push(ports@.subrange(start as int, i as int)) == split_commas(
                ports@.take(i as int),
            ),
        decreases n - i,
    {
        let c = ports.get_char(i);
        let ghost pre = ports@.take(i as int);
        let ghost cur = ports@.take(i as int + 1);
        proof {
            assert(cur.drop_last() =~= pre);
            assert(cur.last() == c);
        }
        if c == ',' {
            let tok = String::from_str(ports.substring_char(start, i));
            let ghost prev = out@;
            out.push(tok);
            start = i + 1;
            proof {
                assert(out@ =~= prev.push(tok));
                assert(views_of(out@) =~= views_of(prev).push(tok@));
                assert(ports@.subrange(start as int, i as int + 1) =~= Seq::<char>::empty());
            }
            assert(views_of(out@).push(ports@.subrange(start as int, i as int + 1)) =~= split_commas(cur));
        } else {
            proof {
                let a = views_of(out@);
                let tt = split_commas(pre);
                assert(tt.drop_last() =~= a);
                assert(tt.last() == ports@.subrange(start as int, i as int));
                assert(ports@.subrange(start as int, i as int + 1) =~= ports@.subrange(
                    start as int,
                    i as int,
                ).push(c));
            }
            assert(views_of(out@).push(ports@.subrange(start as int, i as int + 1)) =~= split_commas(cur));
        }
        i = i + 1;
    }
    let tok = String::from_str(ports.substring_char(start, n));
    let ghost before = out@;
    out.push(tok);
    proof {
        assert(ports@.take(n as int) =~= ports@);
        assert(out@ =~= before.push(tok));
        assert(views_of(out@) =~= views_of(before).push(tok@));
    }
    out
}

/// Joins a host and a port into the `host:port` form that resolution takes.
pub fn host_port(host: &str, port: &str) -> (r: String)
    ensures
        r@ == host@ + seq![':'] + port@,
{
    let sep = ":";
    proof {
        reveal_strlit(":");
    }
    assert(sep@ =~= seq![':']);
    String::from_str(host).concat(sep).concat(port)
}

/// Index of the first resolved address of the wanted IP version, if any.
/// No other version is ever taken in its place.
pub fn pick_address(families: &Vec<IpVersion>, want: IpVersion) -> (r: Option<usize>)
    ensures
        r matches Some(i) ==> i < families.len() && families@[i as int] == want && forall|j: int|
            0 <= j < i ==> families@[j] != want,
        r is None ==> forall|j: int| 0 <= j < families.len() ==> families@[j] != want,
{
    let mut i: usize = 0;
    while i < families.len()
        invariant
            0 <= i <= families.len(),
            forall|j: int| 0 <= j < i ==> families@[j] != want,
        decreases families.len() - i,
    {
        if families[i] == want {
            return Some(i);
        }
        i = i + 1;
    }
    None
}

/// Number of connect attempts in a run: `count` cycles of `limit` attempts
/// on each of `n_ports` ports.
pub fn total_ops(count: u16, limit: u16, n_ports: usize) -> (r: u128)
    ensures
        r == count as int * limit as int * n_ports as int,
{
    assert(count as int * limit as int <= 65535 * 65535) by (nonlinear_arith)
        requires
            0 <= count <= 65535,
            0 <= limit <= 65535,
    ;
    let cl: u128 = (count as u128) * (limit as u128);
    assert(cl as int * n_ports as int <= u128::MAX) by (nonlinear_arith)
        requires
            cl as int == count as int * limit as int,
            0 <= count <= 65535,
            0 <= limit <= 65535,
            0 <= n_ports <= usize::MAX,
            usize::MAX <= u64::MAX,
    ;
    cl * (n_ports as u128)
}

/// Samples of a whole run, gathered port by port: `count` cycles on the
/// first port, then `count` on the next, and so on.
pub struct ProbeRun {
    n_ports: usize,
    count: u16,
    samples: Vec<u64>,
}

impl View for ProbeRun {
    type V = Seq<u64>;

    /// The samples gathered so far, in run order.
    closed spec fn view(&self) -> Seq<u64> {
        self.samples@
    }
}

impl ProbeRun {
    pub closed spec fn n_ports_spec(&self) -> nat {
        self.n_ports as nat
    }

    pub closed spec fn count_spec(&self) -> nat {
        self.count as nat
    }

    /// Number of samples a finished run holds.
    pub open spec fn total_spec(&self) -> nat {
        self.n_ports_spec() * self.count_spec()
    }

    /// A run over `n_ports` ports with `count` cycles each, with no sample yet.
    pub fn new(n_ports: usize, count: u16) -> (r: ProbeRun)
        ensures
            r.n_ports_spec() == n_ports,
            r.count_spec() == count,
            r@ == Seq::<u64>::empty(),
    {
        ProbeRun { n_ports, count, samples: Vec::new() }
    }

    /// Port index of the next cycle, or `None` once every port has had
    /// its `count` cycles.
    pub fn next_port(&self) -> (r: Option<usize>)
        requires
            self@.len() <= self.total_spec(),
        ensures
            self@.len() < self.total_spec() ==> r == Some((self@.len() / self.count_spec()) as usize),
            self@.len() == self.total_spec() ==> r is None,
            r matches Some(p) ==> p < self.n_ports_spec(),
    {
        let done = self.samples.len() as u128;
        assert(self.n_ports as int * self.count as int <= u128::MAX) by (nonlinear_arith)
            requires
                0 <= self.n_ports <= u64::MAX,
                0 <= self.count <= 65535,
        ;
        let total = (self.n_ports as u128) * (self.count as u128);
        if done >= total {
            None
        } else {
            let c = self.count as u128;
            assert(c > 0) by (nonlinear_arith)
                requires
                    done < total,
                    total == self.n_ports as int * c,
                    c >= 0,
                    self.n_ports >= 0,
            ;
            let p = done / c;
            proof {
                let d = done as int;
                let ci = c as int;
                let np = self.n_ports as int;
                assert(d / ci < np) by (nonlinear_arith)
                    requires
                        0 <= d < np * ci,
                        ci > 0,
                ;
            }
            Some(p as usize)
        }
    }

    /// Adds the sample of the cycle just run.
    pub fn add_sample(&mut self, sample: u64)
        requires
            old(self)@.len() < old(self).total_spec(),
        ensures
            final(self)@ == old(self)@.push(sample),
            final(self).n_ports_spec() == old(self).n_ports_spec(),
            final(self).count_spec() == old(self).count_spec(),
    {
        self.samples.push(sample);
    }

    /// All samples of the run, port by port and cycle by cycle.
    pub fn samples(&self) -> (r: &Vec<u64>)
        ensures
            r@ == self@,
    {
        &self.samples
    }
}

} // verus!
