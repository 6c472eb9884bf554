use vstd::prelude::*;

verus! {

/// Process configuration, constructed once at start-up and passed by
/// reference into the components that need it. The surrounding binary
/// fills it from its environment; this crate only consumes the values.
pub struct Config {
    /// Port the HTTP layer listens on.
    pub port: String,
    /// Connection string of the relational store.
    pub team_database_url: String,
    /// Team domain used to build permalinks.
    pub team_domain: String,
    /// Team chat workspace name.
    pub team_slack: String,
    /// Endpoint of the outbound notification sink.
    pub team_webhook_url: String,
}

/// Default port used when none is configured.
pub fn default_port() -> (r: String)
    ensures
        r@ == "3000"@,
{
    String::from_str("3000")
}

/// Default for the optional string settings: empty.
pub fn default_empty_string() -> (r: String)
    ensures
        r@ == ""@,
{
    String::from_str("")
}

} // verus!
