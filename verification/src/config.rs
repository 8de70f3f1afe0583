//! Assembly of the persistence collaborator's connection string from
//! configuration values. The relational store is reached by the process
//! edge with this string; the core never queries it.

use vstd::prelude::*;

verus! {

/// The canonical key=value connection string for the relational store.
pub open spec fn spec_connection_string(
    host: Seq<char>,
    port: Seq<char>,
    user: Seq<char>,
    password: Seq<char>,
    dbname: Seq<char>,
) -> Seq<char> {
    "host="@ + host + " port="@ + port + " user="@ + user + " password="@ + password
        + " dbname="@ + dbname
}

/// Builds the connection string for the given configuration values.
pub fn connection_string(
    host: &str,
    port: &str,
    user: &str,
    password: &str,
    dbname: &str,
) -> (s: String)
    ensures
        s@ == spec_connection_string(host@, port@, user@, password@, dbname@),
{
    let mut s = String::new();
    s.append("host=");
    s.append(host);
    s.append(" port=");
    s.append(port);
    s.append(" user=");
    s.append(user);
    s.append(" password=");
    s.append(password);
    s.append(" dbname=");
    s.append(dbname);
    s
}

} // verus!
