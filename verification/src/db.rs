//! What the database side decides: the connection URLs and how a list of
//! rows is cut into insert batches.
use vstd::prelude::*;

use crate::event::{network_name, StellarNetwork};

verus! {

/// The number of rows written by one insert statement.
pub const BATCH_SIZE: usize = 500;

/// `postgres://<username>:<password>@<host>:<port>/<database>`.
pub open spec fn postgres_url(
    username: Seq<char>,
    password: Seq<char>,
    host: Seq<char>,
    port: Seq<char>,
    database: Seq<char>,
) -> Seq<char> {
    "postgres://"@ + username + ":"@ + password + "@"@ + host + ":"@ + port + "/"@ + database
}

/// `postgres://<username>:<password>@<host>/stellar-futurenet`.
pub open spec fn futurenet_url(username: Seq<char>, password: Seq<char>, host: Seq<char>) -> Seq<
    char,
> {
    "postgres://"@ + username + ":"@ + password + "@"@ + host + "/stellar-futurenet"@
}

/// The URL of the database of `network` on the server `host:port`.
pub fn connection_string(
    username: &str,
    password: &str,
    host: &str,
    port: &str,
    network: &StellarNetwork,
) -> (r: String)
    ensures
        r@ == postgres_url(username@, password@, host@, port@, network_name(*network)),
{
    let mut s = String::from_str("postgres://");
    s.append(username);
    s.append(":");
    s.append(password);
    s.append("@");
    s.append(host);
    s.append(":");
    s.append(port);
    s.append("/");
    s.append(network.name());
    s
}

/// The URL of the Futurenet events database on the server `host`, on the default port.
pub fn db_url(username: &str, password: &str, host: &str) -> (r: String)
    ensures
        r@ == futurenet_url(username@, password@, host@),
{
    let mut s = String::from_str("postgres://");
    s.append(username);
    s.append(":");
    s.append(password);
    s.append("@");
    s.append(host);
    s.append("/stellar-futurenet");
    s
}

/// The smaller of two integers.
pub open spec fn min_int(a: int, b: int) -> int {
    if a <= b {
        a
    } else {
        b
    }
}

/// The `i`-th batch of rows `[start, end)` when `len` rows are cut into
/// batches of `size`.
pub open spec fn batch_range(i: int, len: int, size: int) -> (int, int) {
    (i * size, min_int(i * size + size, len))
}

/// How many batches `len` rows make with batches of `size`.
pub open spec fn batch_count(len: int, size: int) -> int {
    (len + size - 1) / size
}

/// Cuts `len` rows into consecutive batches of `batch_size` rows, the last one
/// possibly shorter, as `[start, end)` pairs; no batch for no rows.
pub fn batch_bounds(len: usize, batch_size: usize) -> (r: Vec<(usize, usize)>)
    requires
        batch_size > 0,
    ensures
        r@.len() == batch_count(len as int, batch_size as int),
        forall|i: int|
            0 <= i < r@.len() ==> (#[trigger] r@[i]).0 == batch_range(i, len as int, batch_size as int).0
                && r@[i].1 == batch_range(i, len as int, batch_size as int).1,
{
    let mut r: Vec<(usize, usize)> = Vec::new();
    let mut start: usize = 0;
    assert(0 * batch_size == 0) by (nonlinear_arith);
    while start < len
        invariant
            batch_size > 0,
            start <= len,
            start as int == r@.len() * batch_size,
            r@.len() > 0 ==> start < len,
            forall|i: int|
                0 <= i < r@.len() ==> (#[trigger] r@[i]).0 == batch_range(i, len as int, batch_size as int).0
                    && r@[i].1 == batch_range(i, len as int, batch_size as int).1,
        decreases len - start,
    {
        let k: usize = r.len();
        let end: usize = if len - start > batch_size {
            start + batch_size
        } else {
            len
        };
        r.push((start, end));
        proof {
            assert((k + 1) * batch_size == k * batch_size + batch_size) by (nonlinear_arith);
            assert(r@[k as int].0 == batch_range(k as int, len as int, batch_size as int).0);
        }
        if end == len {
            proof {
                let n = r@.len() as int;
                let bs = batch_size as int;
                let l = len as int;
                assert(n * bs >= l);
                assert((n - 1) * bs < l);
                assert(batch_count(l, bs) == n) by (nonlinear_arith)
                    requires
                        n * bs >= l,
                        (n - 1) * bs < l,
                        bs > 0,
                ;
            }
            return r;
        }
        start = end;
    }
    proof {
        assert(len == 0);
        assert(batch_count(0, batch_size as int) == 0) by (nonlinear_arith)
            requires
                batch_size > 0,
        ;
    }
    r
}

} // verus!
