//! Process configuration: an immutable value constructed once at startup
//! and passed into the components that need it. Reading it from disk and
//! deserializing are left to the surrounding program; the shapes live here.
use vstd::prelude::*;

verus! {

/// Where the server listens and the public host name it serves.
#[derive(Debug)]
pub struct Server {
    pub listen: String,
    pub port: u16,
    pub host: String,
}

/// The wiki repository: its remote and its local working copy.
#[derive(Debug)]
pub struct Wiki {
    pub repository: String,
    pub path: String,
}

/// The blog repository: its remote and its local working copy.
#[derive(Debug)]
pub struct Blog {
    pub repository: String,
    pub path: String,
}

/// The content sources and the shared webhook secret.
#[derive(Debug)]
pub struct Content {
    pub secret: String,
    pub wiki: Wiki,
    pub blog: Blog,
}

/// What the home page shows.
#[derive(Debug, Clone)]
pub struct IndexPage {
    pub slogan: Option<String>,
    pub title: Option<String>,
    pub skills: Option<Vec<String>>,
    pub github: Option<String>,
}

/// Contact addresses shown on the contact page.
#[derive(Debug, Clone)]
pub struct Contact {
    pub mail: Option<String>,
    pub matrix: Option<String>,
    pub threema: Option<String>,
}

/// The whole process configuration.
#[derive(Debug)]
pub struct Config {
    pub server: Server,
    pub content: Content,
    pub contact: Contact,
    pub index: IndexPage,
}

} // verus!
