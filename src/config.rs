//! Database settings and the connection string built from them.

use vstd::prelude::*;

verus! {

/// Where the database is, each part optional.
#[derive(Debug, Clone, Default)]
pub struct ServerDatabaseConfig {
    pub username: Option<String>,
    pub password: Option<String>,
    pub hostname: Option<String>,
    pub port: Option<String>,
    pub database: Option<String>,
    pub schema: Option<String>,
}

pub open spec fn opt_view(s: Option<String>) -> Option<Seq<char>> {
    match s {
        Some(t) => Some(t@),
        None => None,
    }
}

/// The connection string of the parts: a user (followed by `:`, and by the
/// password and `@` where there is one), the host (`localhost` by default),
/// `:` and the port (`5432` by default), `/` and the database, and
/// `?schema=` with the schema where there is one.
pub open spec fn connection_url(
    username: Option<Seq<char>>,
    password: Option<Seq<char>>,
    hostname: Option<Seq<char>>,
    port: Option<Seq<char>>,
    database: Option<Seq<char>>,
    schema: Option<Seq<char>>,
) -> Seq<char> {
    let user = match username {
        Some(u) => u + ":"@ + match password {
            Some(p) => p + "@"@,
            None => Seq::empty(),
        },
        None => Seq::empty(),
    };
    let host = match hostname {
        Some(h) => h,
        None => "localhost"@,
    };
    let port = match port {
        Some(p) => p,
        None => "5432"@,
    };
    let db = match database {
        Some(d) => d,
        None => Seq::empty(),
    };
    let schema = match schema {
        Some(s) => "?schema="@ + s,
        None => Seq::empty(),
    };
    "postgres://"@ + user + host + ":"@ + port + "/"@ + db + schema
}

impl ServerDatabaseConfig {
    /// The PostgreSQL connection string for these settings.
    pub fn connection_string(&self) -> (r: String)
        ensures
            r@ == connection_url(
                opt_view(self.username),
                opt_view(self.password),
                opt_view(self.hostname),
                opt_view(self.port),
                opt_view(self.database),
                opt_view(self.schema),
            ),
    {
        let mut s = String::from_str("postgres://");
        if let Some(username) = &self.username {
            s.append(username.as_str());
            s.append(":");
            if let Some(password) = &self.password {
                s.append(password.as_str());
                s.append("@");
            }
        }
        if let Some(hostname) = &self.hostname {
            s.append(hostname.as_str());
        } else {
            s.append("localhost");
        }
        s.append(":");
        match &self.port {
            Some(p) => s.append(p.as_str()),
            None => s.append("5432"),
        }
        s.append("/");
        if let Some(database) = &self.database {
            s.append(database.as_str());
        }
        if let Some(schema) = &self.schema {
            s.append("?schema=");
            s.append(schema.as_str());
        }
        proof {
            let expected = connection_url(
                opt_view(self.username),
                opt_view(self.password),
                opt_view(self.hostname),
                opt_view(self.port),
                opt_view(self.database),
                opt_view(self.schema),
            );
            assert(s@ =~= expected);
        }
        s
    }
}

} // verus!
