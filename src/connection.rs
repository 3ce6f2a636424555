use std::collections::HashMap;
use vstd::prelude::*;
use vstd::string::*;
use crate::text::{decimal, push_decimal};

verus! {

/// Where and how to reach the feed: scheme, host, port, path and the extra
/// headers of the upgrade request.
pub struct BinanceWebSocketConnection {
    pub protocol: String,
    pub host: String,
    pub port: u16,
    pub path: String,
    pub headers: HashMap<String, String>,
}

/// The configuration a client connects with.
pub struct BinanceWebSocketConfig {
    pub connection: BinanceWebSocketConnection,
}

/// The query that asks the feed for microsecond timestamps.
pub open spec fn time_unit_query() -> Seq<char> {
    seq!['?', 't', 'i', 'm', 'e', 'U', 'n', 'i', 't', '=', 'M', 'I', 'C', 'R', 'O', 'S', 'E', 'C', 'O', 'N', 'D']
}

/// `<protocol>://<host>:<port><path>?timeUnit=MICROSECOND`
pub open spec fn url_of(protocol: Seq<char>, host: Seq<char>, port: nat, path: Seq<char>) -> Seq<char> {
    protocol + seq![':', '/', '/'] + host + seq![':'] + decimal(port) + path + time_unit_query()
}

impl BinanceWebSocketConnection {
    /// The URL that the client connects to.
    pub fn to_url_string(&self) -> (r: String)
        ensures
            r@ == url_of(self.protocol@, self.host@, self.port as nat, self.path@),
    {
        let mut s = self.protocol.clone();
        s.append("://");
        s.append(self.host.as_str());
        s.append(":");
        push_decimal(&mut s, self.port as u64);
        s.append(self.path.as_str());
        s.append("?timeUnit=MICROSECOND");
        proof {
            reveal_strlit("://");
            reveal_strlit(":");
            reveal_strlit("?timeUnit=MICROSECOND");
        }
        assert(s@ =~= url_of(self.protocol@, self.host@, self.port as nat, self.path@));
        s
    }
}

} // verus!
