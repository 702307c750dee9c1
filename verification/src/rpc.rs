//! How to reach the node.

use crate::text::concat_texts;
use vstd::prelude::*;

verus! {

/// How to authenticate at the node.
#[derive(Debug)]
pub enum RpcAuth {
    Anonymous,
    UserPass(String, String),
    CookieFile(String),
}

/// How to reach the node.
#[derive(Debug)]
pub struct RPCConfig {
    /// Host and port of the node.
    pub url: String,
    pub auth: RpcAuth,
    /// The name of the wallet's local files. Calls to the node do not depend on it.
    pub wallet_name: String,
}

/// The same way to authenticate.
pub open spec fn same_auth(a: RpcAuth, b: RpcAuth) -> bool {
    match (a, b) {
        (RpcAuth::Anonymous, RpcAuth::Anonymous) => true,
        (RpcAuth::UserPass(user, pass), RpcAuth::UserPass(other_user, other_pass)) => user@
            == other_user@ && pass@ == other_pass@,
        (RpcAuth::CookieFile(path), RpcAuth::CookieFile(other)) => path@ == other@,
        _ => false,
    }
}

impl Clone for RpcAuth {
    fn clone(&self) -> (r: Self)
        ensures
            same_auth(*self, r),
    {
        match self {
            RpcAuth::Anonymous => RpcAuth::Anonymous,
            RpcAuth::UserPass(user, pass) => RpcAuth::UserPass(user.clone(), pass.clone()),
            RpcAuth::CookieFile(path) => RpcAuth::CookieFile(path.clone()),
        }
    }
}

impl Clone for RPCConfig {
    fn clone(&self) -> (r: Self)
        ensures
            r.url@ == self.url@,
            same_auth(self.auth, r.auth),
            r.wallet_name@ == self.wallet_name@,
    {
        RPCConfig {
            url: self.url.clone(),
            auth: self.auth.clone(),
            wallet_name: self.wallet_name.clone(),
        }
    }
}

impl Default for RPCConfig {
    fn default() -> (r: Self)
        ensures
            r.url@ == "localhost:18443"@,
            r.auth matches RpcAuth::UserPass(user, pass) && user@ == "regtestrpcuser"@ && pass@
                == "regtestrpcpass"@,
            r.wallet_name@ == "random-wallet-name"@,
    {
        RPCConfig {
            url: "localhost:18443".to_string(),
            auth: RpcAuth::UserPass("regtestrpcuser".to_string(), "regtestrpcpass".to_string()),
            wallet_name: "random-wallet-name".to_string(),
        }
    }
}

impl RPCConfig {
    /// The address that calls go to: the node itself, not one of its wallets.
    pub fn node_url(&self) -> (r: String)
        ensures
            r@ == "http://"@ + self.url@,
    {
        concat_texts("http://", self.url.as_str())
    }
}

} // verus!
