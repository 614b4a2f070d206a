//! What can go wrong, and how it is worded.

use vstd::prelude::*;
use crate::text;

verus! {

/// A failed input or output operation.
#[derive(Debug, Clone, PartialEq, Eq)]
pub struct IoFailure {
    /// What the operating system says of it.
    pub message: String,
    /// The operating system's own number for it.
    pub code: Option<i32>,
    /// Whether the operating system is Windows, whose numbers mean other things.
    pub on_windows: bool,
}

/// Every failure that is reported to the user.
#[derive(Debug, PartialEq, Eq)]
#[allow(inconsistent_fields)]
pub enum VendorError {
    /// No config file where one was looked for.
    NoConfigFile,
    /// `vendorDependencies` is not a map.
    InvalidDependenciesKey(String),
    /// `vendorConfig` is not a map.
    InvalidConfigKey(String),
    /// `repository` is missing or no GitHub URL.
    InvalidRepositoryKey {
        name: String,
    },
    /// `files` is missing or no list.
    InvalidFilesKey {
        name: String,
    },
    /// `hashVersionFile` is neither text nor `true`.
    InvalidHashVersionFileKey {
        name: String,
    },
    /// `releaseRegex` is no regular expression.
    InvalidReleaseRegexKey {
        name: String,
    },
    /// The config does not list this dependency.
    DependencyNotFound {
        name: String,
        path: String,
    },
    /// No dependency goes by this name.
    NoDependencyNamed(String),
    /// The dependency names no repository.
    NoRepositoryForDependency(String),
    /// The dependency lists no files.
    NoFilesForDependency(String),
    /// The dependency must not be upgraded.
    DependencyLocked(String),
    /// Not a GitHub URL, quoted.
    InvalidGitHubUrlQuoted(String),
    /// Not a GitHub URL.
    InvalidGitHubUrl(String),
    /// `install` was told no files.
    MissingFilesOption,
    /// `uninstall` was told no names.
    NoPackageNames,
    /// An option that describes one dependency stands beside several sources.
    SingleSourceOption(&'static str),
    /// A version stands where a source belongs.
    VersionAsSource {
        version: String,
        suggestion: String,
    },
    /// The first file cannot stand for the version.
    InvalidHashVersionFileTarget(&'static str),
    /// `hashVersionFile` cannot be resolved.
    InvalidHashVersionFile,
    /// The commit of a file could not be looked up.
    CommitShaLookup {
        path: String,
        source: Box<VendorError>,
    },
    /// The file has no commits.
    NoCommitsFound {
        owner: String,
        repo: String,
        path: String,
    },
    /// No version could be found.
    NoVersionFound(String),
    /// Members are to be extracted from a file that is no release asset.
    NonStringOutputWithoutRelease(String),
    /// The file is not in the repository.
    FileNotFoundInRepo {
        file: String,
        repository: String,
    },
    /// The file could not be downloaded.
    FileDownloadFailed {
        file: String,
        repository: String,
        version: String,
        source: Box<VendorError>,
    },
    /// A repository that GitHub says is not there.
    RepositoryNotFound {
        repository: String,
    },
    /// A request GitHub refused, with whatever it said about why.
    RequestFailed {
        status: u16,
        message: String,
    },
    /// GitHub refused the credentials on an ordinary request.
    BadCredentials,
    /// The request limit is used up.
    RateLimited(String),
    /// A file could not be put in place.
    SaveFailed {
        path: String,
        source: IoFailure,
    },
    /// There is no such release.
    ReleaseNotFound {
        version: String,
        owner: String,
        repo: String,
    },
    /// The release has no assets.
    ReleaseAssetsMissing(String),
    /// The release has no such asset.
    ReleaseAssetNotFound {
        asset: String,
        url: String,
    },
    /// The asset could not be downloaded.
    ReleaseAssetDownloadFailed {
        asset: String,
        url: String,
    },
    /// No release matches the expression.
    NoMatchingRelease {
        regex: String,
        owner: String,
        repo: String,
    },
    /// An archive that could not be unpacked, and why.
    CannotExtract {
        file: String,
        source: Box<VendorError>,
    },
    /// An extracted file could not be moved.
    MoveFailed {
        from: String,
        to: String,
        source: IoFailure,
    },
    /// The search found nothing.
    NoSearchResults(String),
    /// The search found nothing by that name, but something near it.
    NoSearchResultsDidYouMean {
        name: String,
        suggestion: String,
    },
    /// The token is not valid.
    InvalidToken,
    /// The token's requests are used up.
    TokenRateLimited,
    /// The stored token could not be removed.
    KeyringDelete(String),
    /// The registry could not be fetched.
    RegistryUnreachable(String),
    /// The registry could not be read.
    RegistryUnreadable(String),
    /// The registry is of a later version.
    RegistryTooNew {
        found: u32,
        supported: u32,
    },
    /// A registry entry cannot be used.
    RegistryInvalidEntry {
        name: String,
        reason: String,
    },
    /// The registry has no release for this host.
    RegistryUnsupportedHost {
        name: String,
        host: String,
    },
    /// Authentication failed for no known reason.
    AuthUnknownFailure,
    /// The browser login failed.
    DeviceFlow(String),
    /// An input or output operation failed.
    Io {
        source: IoFailure,
    },
    /// A file that would not go away.
    DeleteFailed {
        path: String,
        source: IoFailure,
    },
    /// A file could not be read.
    ReadFile {
        path: String,
        source: IoFailure,
    },
    /// A file could not be written.
    WriteFile {
        path: String,
        source: IoFailure,
    },
    /// The config could not be parsed.
    ParseConfig {
        path: String,
        message: String,
    },
    /// The config could not be written out.
    SerializeConfig {
        path: String,
        message: String,
    },
    /// A failure of the HTTP layer.
    Http(String),
}

/// `" with version ..."`, or nothing where the version resolved to nothing.
pub open spec fn at_version_spec(version: Seq<char>) -> Seq<char> {
    if version.len() == 0 {
        Seq::empty()
    } else {
        " with version "@ + version
    }
}

/// `": ..."`, or nothing at all where there is no message.
pub open spec fn status_detail_spec(message: Seq<char>) -> Seq<char> {
    if message.len() == 0 {
        Seq::empty()
    } else {
        ": "@ + message
    }
}

/// The hint given for the failures by which Windows says that a file is in use.
pub open spec fn in_use_hint_spec(source: IoFailure) -> Seq<char> {
    if source.on_windows && (source.code == Some(5i32) || source.code == Some(32i32)) {
        "\nThe file may be in use - close whatever is running it and try again."@
    } else {
        Seq::empty()
    }
}

/// The most characters a message of GitHub's is given on one line.
pub const LINE_LIMIT: usize = 200;

/// `s` without white space at its end.
pub open spec fn trim_end_spec(s: Seq<char>) -> Seq<char> {
    s.take(text::back_while(s, |c: char| text::is_whitespace(c), 0, s.len() as int))
}

/// `s` without colons at its end.
pub open spec fn trim_colons_spec(s: Seq<char>) -> Seq<char> {
    s.take(text::back_while(s, |c: char| c == ':', 0, s.len() as int))
}

/// The first line of `s`, without white space around it.
pub open spec fn bare_line(s: Seq<char>) -> Seq<char> {
    text::trimmed(text::first_line_spec(s), |c: char| text::is_whitespace(c))
}

/// The first line of a message, cut with an ellipsis where it is too long.
pub open spec fn one_line_spec(message: Seq<char>) -> Seq<char> {
    let line = bare_line(message);
    if line.len() <= LINE_LIMIT {
        line
    } else {
        line.take(LINE_LIMIT - 1).push('\u{2026}')
    }
}

/// `s` in ASCII lower case.
pub open spec fn lowered(s: Seq<char>) -> Seq<char> {
    Seq::new(s.len(), |i: int| text::lower_spec(s[i]))
}

impl VendorError {
    /// The message printed after `ERROR: `.
    pub open spec fn message(&self) -> Seq<char>
        decreases self,
    {
        match self {
            VendorError::NoConfigFile => "No configuration file found in the current directory."@,
            VendorError::InvalidDependenciesKey(what) => "Invalid vendorDependencies key in "@ + what@,
            VendorError::InvalidConfigKey(what) => "Invalid vendorConfig key in "@ + what@,
            VendorError::InvalidRepositoryKey { name } => "config key 'vendorDependencies."@ + name@ + ".repository' is not a valid github url"@,
            VendorError::InvalidFilesKey { name } => "config key 'vendorDependencies."@ + name@ + ".files' is not a valid array"@,
            VendorError::InvalidHashVersionFileKey { name } => "config key 'vendorDependencies."@ + name@ + ".hashVersionFile' must be a string or true"@,
            VendorError::InvalidReleaseRegexKey { name } => "config key 'vendorDependencies."@ + name@ + ".releaseRegex' must be a valid regex string"@,
            VendorError::DependencyNotFound { name, path } => "Dependency "@ + name@ + " not found in "@ + path@,
            VendorError::NoDependencyNamed(what) => "No dependency found with name "@ + what@,
            VendorError::NoRepositoryForDependency(what) => "No repository found for dependency "@ + what@,
            VendorError::NoFilesForDependency(what) => "No files found for dependency "@ + what@,
            VendorError::DependencyLocked(what) => "Dependency "@ + what@ + " is locked and cannot be upgraded"@,
            VendorError::InvalidGitHubUrlQuoted(what) => "Invalid GitHub URL \""@ + what@ + "\""@,
            VendorError::InvalidGitHubUrl(what) => "Invalid GitHub URL: "@ + what@,
            VendorError::MissingFilesOption => "you must provide files to install with -f or --files <files...>"@,
            VendorError::NoPackageNames => "No package names provided"@,
            VendorError::SingleSourceOption(what) => what@ + " describes one dependency, so it cannot be used with more than one source"@,
            VendorError::VersionAsSource { version, suggestion } => "'"@ + version@ + "' looks like a version, not a source. Did you mean '"@ + suggestion@ + "'?"@,
            VendorError::InvalidHashVersionFileTarget(what) => "files[0] is invalid for hashVersionFile, must be a string or an object - got "@ + what@,
            VendorError::InvalidHashVersionFile => "hashVersionFile is invalid, must be a string or true"@,
            VendorError::CommitShaLookup { path, source } => "Error while getting commit sha for "@ + path@ + ":\n"@ + source.message(),
            VendorError::NoCommitsFound { owner, repo, path } => "No commits found for "@ + owner@ + "/"@ + repo@ + ": "@ + path@,
            VendorError::NoVersionFound(what) => "Could not find a version for "@ + what@,
            VendorError::NonStringOutputWithoutRelease(what) => "File "@ + what@ + "\nis not a string, and "@ + "{release}"@ + " is not used}"@,
            VendorError::FileNotFoundInRepo { file, repository } => "File \""@ + file@ + "\" was not found in "@ + repository@,
            VendorError::FileDownloadFailed { file, repository, version, source } => source.message() + ":\nCould not download file \""@ + file@ + "\" from "@ + repository@ + at_version_spec(version@),
            VendorError::RepositoryNotFound { repository } => "Repository "@ + repository@ + " does not exist, or you do not have access to it"@,
            VendorError::RequestFailed { status, message } => "Request failed with status "@ + text::decimal_spec(*status as int) + status_detail_spec(message@),
            VendorError::BadCredentials => "GitHub rejected the credentials (401 Bad credentials).\nCheck your GITHUB_TOKEN, or run `vendor login`"@,
            VendorError::RateLimited(what) => "GitHub API rate limit reached"@ + what@ + "\nRun `vendor login` or use a GITHUB_TOKEN env variable - unauthenticated requests are limited to 60 an hour, a token to 5000"@,
            VendorError::SaveFailed { path, source } => "Could not save "@ + path@ + ":\n"@ + source.message@ + in_use_hint_spec(*source),
            VendorError::ReleaseNotFound { version, owner, repo } => "Release \""@ + version@ + "\" was not found in "@ + owner@ + "/"@ + repo@,
            VendorError::ReleaseAssetsMissing(what) => "Release assets were not found in "@ + what@,
            VendorError::ReleaseAssetNotFound { asset, url } => "Release asset \""@ + asset@ + "\" was not found in "@ + url@ + "\nDid you forget to add a \"v\" before the version?"@,
            VendorError::ReleaseAssetDownloadFailed { asset, url } => "Release asset \""@ + asset@ + "\" failed to download from "@ + url@,
            VendorError::NoMatchingRelease { regex, owner, repo } => "No releases found matching "@ + regex@ + " in "@ + owner@ + "/"@ + repo@,
            VendorError::CannotExtract { file, source } => "file \""@ + file@ + "\" cannot be extracted.\nplease check that it's either a zip | tar | tar.gz\n"@ + source.message(),
            VendorError::MoveFailed { from, to, source } => "Error while moving file \""@ + from@ + "\" to \""@ + to@ + "\":\n"@ + source.message@,
            VendorError::NoSearchResults(what) => "No results found for \""@ + what@ + "\""@,
            VendorError::NoSearchResultsDidYouMean { name, suggestion } => "No results found for \""@ + name@ + "\"\nDid you mean "@ + suggestion@ + "?"@,
            VendorError::InvalidToken => "Invalid token"@,
            VendorError::TokenRateLimited => "Token is rate limited"@,
            VendorError::KeyringDelete(what) => "Could not remove the stored token: "@ + what@,
            VendorError::RegistryUnreachable(what) => "Could not reach the program registry: "@ + what@,
            VendorError::RegistryUnreadable(what) => "The program registry could not be read: "@ + what@,
            VendorError::RegistryTooNew { found, supported } => "The program registry is version "@ + text::decimal_spec(*found as int) + ", but this vendor understands "@ + text::decimal_spec(*supported as int) + ". Update vendor to install by name."@,
            VendorError::RegistryInvalidEntry { name, reason } => "The registry entry for '"@ + name@ + "' is unusable: "@ + reason@,
            VendorError::RegistryUnsupportedHost { name, host } => "'"@ + name@ + "' is in the registry but has no release for "@ + host@,
            VendorError::AuthUnknownFailure => "Something went wrong, try again later"@,
            VendorError::DeviceFlow(what) => what@,
            VendorError::Io { source } => source.message@,
            VendorError::DeleteFailed { path, source } => "Could not delete "@ + path@ + ": "@ + source.message@ + in_use_hint_spec(*source),
            VendorError::ReadFile { path, source } => "Could not read "@ + path@ + ": "@ + source.message@,
            VendorError::WriteFile { path, source } => "Could not write "@ + path@ + ": "@ + source.message@,
            VendorError::ParseConfig { path, message } => "Failed to parse "@ + path@ + ": "@ + message@,
            VendorError::SerializeConfig { path, message } => "Failed to serialize "@ + path@ + ": "@ + message@,
            VendorError::Http(what) => what@,
        }
    }

    /// The message's first line, without a trailing colon or white space.
    pub open spec fn brief_spec(&self) -> Seq<char> {
        trim_end_spec(trim_colons_spec(trim_end_spec(text::first_line_spec(self.message()))))
    }

    /// The message printed after `ERROR: `.
    pub fn to_text(&self) -> (r: String)
        ensures
            r@ == self.message(),
        decreases self,
    {
        let mut r = String::new();
        match self {
            VendorError::NoConfigFile => {
                r.append("No configuration file found in the current directory.");
            },
            VendorError::InvalidDependenciesKey(what) => {
                r.append("Invalid vendorDependencies key in ");
                r.append(what.as_str());
            },
            VendorError::InvalidConfigKey(what) => {
                r.append("Invalid vendorConfig key in ");
                r.append(what.as_str());
            },
            VendorError::InvalidRepositoryKey { name } => {
                r.append("config key 'vendorDependencies.");
                r.append(name.as_str());
                r.append(".repository' is not a valid github url");
            },
            VendorError::InvalidFilesKey { name } => {
                r.append("config key 'vendorDependencies.");
                r.append(name.as_str());
                r.append(".files' is not a valid array");
            },
            VendorError::InvalidHashVersionFileKey { name } => {
                r.append("config key 'vendorDependencies.");
                r.append(name.as_str());
                r.append(".hashVersionFile' must be a string or true");
            },
            VendorError::InvalidReleaseRegexKey { name } => {
                r.append("config key 'vendorDependencies.");
                r.append(name.as_str());
                r.append(".releaseRegex' must be a valid regex string");
            },
            VendorError::DependencyNotFound { name, path } => {
                r.append("Dependency ");
                r.append(name.as_str());
                r.append(" not found in ");
                r.append(path.as_str());
            },
            VendorError::NoDependencyNamed(what) => {
                r.append("No dependency found with name ");
                r.append(what.as_str());
            },
            VendorError::NoRepositoryForDependency(what) => {
                r.append("No repository found for dependency ");
                r.append(what.as_str());
            },
            VendorError::NoFilesForDependency(what) => {
                r.append("No files found for dependency ");
                r.append(what.as_str());
            },
            VendorError::DependencyLocked(what) => {
                r.append("Dependency ");
                r.append(what.as_str());
                r.append(" is locked and cannot be upgraded");
            },
            VendorError::InvalidGitHubUrlQuoted(what) => {
                r.append("Invalid GitHub URL \"");
                r.append(what.as_str());
                r.append("\"");
            },
            VendorError::InvalidGitHubUrl(what) => {
                r.append("Invalid GitHub URL: ");
                r.append(what.as_str());
            },
            VendorError::MissingFilesOption => {
                r.append("you must provide files to install with -f or --files <files...>");
            },
            VendorError::NoPackageNames => {
                r.append("No package names provided");
            },
            VendorError::SingleSourceOption(what) => {
                r.append(what);
                r.append(" describes one dependency, so it cannot be used with more than one source");
            },
            VendorError::VersionAsSource { version, suggestion } => {
                r.append("'");
                r.append(version.as_str());
                r.append("' looks like a version, not a source. Did you mean '");
                r.append(suggestion.as_str());
                r.append("'?");
            },
            VendorError::InvalidHashVersionFileTarget(what) => {
                r.append("files[0] is invalid for hashVersionFile, must be a string or an object - got ");
                r.append(what);
            },
            VendorError::InvalidHashVersionFile => {
                r.append("hashVersionFile is invalid, must be a string or true");
            },
            VendorError::CommitShaLookup { path, source } => {
                r.append("Error while getting commit sha for ");
                r.append(path.as_str());
                r.append(":\n");
                r.append(source.to_text().as_str());
            },
            VendorError::NoCommitsFound { owner, repo, path } => {
                r.append("No commits found for ");
                r.append(owner.as_str());
                r.append("/");
                r.append(repo.as_str());
                r.append(": ");
                r.append(path.as_str());
            },
            VendorError::NoVersionFound(what) => {
                r.append("Could not find a version for ");
                r.append(what.as_str());
            },
            VendorError::NonStringOutputWithoutRelease(what) => {
                r.append("File ");
                r.append(what.as_str());
                r.append("\nis not a string, and ");
                r.append("{release}");
                r.append(" is not used}");
            },
            VendorError::FileNotFoundInRepo { file, repository } => {
                r.append("File \"");
                r.append(file.as_str());
                r.append("\" was not found in ");
                r.append(repository.as_str());
            },
            VendorError::FileDownloadFailed { file, repository, version, source } => {
                r.append(source.to_text().as_str());
                r.append(":\nCould not download file \"");
                r.append(file.as_str());
                r.append("\" from ");
                r.append(repository.as_str());
                r.append(at_version(version.as_str()).as_str());
            },
            VendorError::RepositoryNotFound { repository } => {
                r.append("Repository ");
                r.append(repository.as_str());
                r.append(" does not exist, or you do not have access to it");
            },
            VendorError::RequestFailed { status, message } => {
                r.append("Request failed with status ");
                r.append(text::decimal(*status as u64).as_str());
                r.append(status_detail(message.as_str()).as_str());
            },
            VendorError::BadCredentials => {
                r.append("GitHub rejected the credentials (401 Bad credentials).\nCheck your GITHUB_TOKEN, or run `vendor login`");
            },
            VendorError::RateLimited(what) => {
                r.append("GitHub API rate limit reached");
                r.append(what.as_str());
                r.append("\nRun `vendor login` or use a GITHUB_TOKEN env variable - unauthenticated requests are limited to 60 an hour, a token to 5000");
            },
            VendorError::SaveFailed { path, source } => {
                r.append("Could not save ");
                r.append(path.as_str());
                r.append(":\n");
                r.append(source.message.as_str());
                r.append(in_use_hint(source).as_str());
            },
            VendorError::ReleaseNotFound { version, owner, repo } => {
                r.append("Release \"");
                r.append(version.as_str());
                r.append("\" was not found in ");
                r.append(owner.as_str());
                r.append("/");
                r.append(repo.as_str());
            },
            VendorError::ReleaseAssetsMissing(what) => {
                r.append("Release assets were not found in ");
                r.append(what.as_str());
            },
            VendorError::ReleaseAssetNotFound { asset, url } => {
                r.append("Release asset \"");
                r.append(asset.as_str());
                r.append("\" was not found in ");
                r.append(url.as_str());
                r.append("\nDid you forget to add a \"v\" before the version?");
            },
            VendorError::ReleaseAssetDownloadFailed { asset, url } => {
                r.append("Release asset \"");
                r.append(asset.as_str());
                r.append("\" failed to download from ");
                r.append(url.as_str());
            },
            VendorError::NoMatchingRelease { regex, owner, repo } => {
                r.append("No releases found matching ");
                r.append(regex.as_str());
                r.append(" in ");
                r.append(owner.as_str());
                r.append("/");
                r.append(repo.as_str());
            },
            VendorError::CannotExtract { file, source } => {
                r.append("file \"");
                r.append(file.as_str());
                r.append("\" cannot be extracted.\nplease check that it's either a zip | tar | tar.gz\n");
                r.append(source.to_text().as_str());
            },
            VendorError::MoveFailed { from, to, source } => {
                r.append("Error while moving file \"");
                r.append(from.as_str());
                r.append("\" to \"");
                r.append(to.as_str());
                r.append("\":\n");
                r.append(source.message.as_str());
            },
            VendorError::NoSearchResults(what) => {
                r.append("No results found for \"");
                r.append(what.as_str());
                r.append("\"");
            },
            VendorError::NoSearchResultsDidYouMean { name, suggestion } => {
                r.append("No results found for \"");
                r.append(name.as_str());
                r.append("\"\nDid you mean ");
                r.append(suggestion.as_str());
                r.append("?");
            },
            VendorError::InvalidToken => {
                r.append("Invalid token");
            },
            VendorError::TokenRateLimited => {
                r.append("Token is rate limited");
            },
            VendorError::KeyringDelete(what) => {
                r.append("Could not remove the stored token: ");
                r.append(what.as_str());
            },
            VendorError::RegistryUnreachable(what) => {
                r.append("Could not reach the program registry: ");
                r.append(what.as_str());
            },
            VendorError::RegistryUnreadable(what) => {
                r.append("The program registry could not be read: ");
                r.append(what.as_str());
            },
            VendorError::RegistryTooNew { found, supported } => {
                r.append("The program registry is version ");
                r.append(text::decimal(*found as u64).as_str());
                r.append(", but this vendor understands ");
                r.append(text::decimal(*supported as u64).as_str());
                r.append(". Update vendor to install by name.");
            },
            VendorError::RegistryInvalidEntry { name, reason } => {
                r.append("The registry entry for '");
                r.append(name.as_str());
                r.append("' is unusable: ");
                r.append(reason.as_str());
            },
            VendorError::RegistryUnsupportedHost { name, host } => {
                r.append("'");
                r.append(name.as_str());
                r.append("' is in the registry but has no release for ");
                r.append(host.as_str());
            },
            VendorError::AuthUnknownFailure => {
                r.append("Something went wrong, try again later");
            },
            VendorError::DeviceFlow(what) => {
                r.append(what.as_str());
            },
            VendorError::Io { source } => {
                r.append(source.message.as_str());
            },
            VendorError::DeleteFailed { path, source } => {
                r.append("Could not delete ");
                r.append(path.as_str());
                r.append(": ");
                r.append(source.message.as_str());
                r.append(in_use_hint(source).as_str());
            },
            VendorError::ReadFile { path, source } => {
                r.append("Could not read ");
                r.append(path.as_str());
                r.append(": ");
                r.append(source.message.as_str());
            },
            VendorError::WriteFile { path, source } => {
                r.append("Could not write ");
                r.append(path.as_str());
                r.append(": ");
                r.append(source.message.as_str());
            },
            VendorError::ParseConfig { path, message } => {
                r.append("Failed to parse ");
                r.append(path.as_str());
                r.append(": ");
                r.append(message.as_str());
            },
            VendorError::SerializeConfig { path, message } => {
                r.append("Failed to serialize ");
                r.append(path.as_str());
                r.append(": ");
                r.append(message.as_str());
            },
            VendorError::Http(what) => {
                r.append(what.as_str());
            },
        }
        r
    }

    /// The first line of this error's message.
    ///
    /// Several of these messages run to two lines, and the live display has one row per
    /// dependency to say what went wrong in. A trailing colon goes with the rest: it would point
    /// at a line that is not there.
    pub fn brief(&self) -> (r: String)
        ensures
            r@ == self.brief_spec(),
    {
        let line = text::first_line(self.to_text().as_str());
        trim_end(trim_colons(trim_end(line.as_str()).as_str()).as_str())
    }
}

/// `" with version ..."`, or nothing.
fn at_version(version: &str) -> (r: String)
    ensures
        r@ == at_version_spec(version@),
{
    if version.is_empty() {
        String::new()
    } else {
        " with version ".to_owned().concat(version)
    }
}

/// `": ..."`, or nothing.
fn status_detail(message: &str) -> (r: String)
    ensures
        r@ == status_detail_spec(message@),
{
    if message.is_empty() {
        String::new()
    } else {
        ": ".to_owned().concat(message)
    }
}

/// The hint given for the failures by which Windows says that a file is in use.
fn in_use_hint(source: &IoFailure) -> (r: String)
    ensures
        r@ == in_use_hint_spec(*source),
{
    let busy = match source.code {
        Some(code) => code == 5 || code == 32,
        None => false,
    };
    if source.on_windows && busy {
        "\nThe file may be in use - close whatever is running it and try again.".to_owned()
    } else {
        String::new()
    }
}

/// `s` without white space at its end.
pub fn trim_end(s: &str) -> (r: String)
    ensures
        r@ == trim_end_spec(s@),
{
    let cs = text::chars_of(s);
    let ghost blank = |c: char| text::is_whitespace(c);
    let mut end: usize = cs.len();
    while end > 0 && text::whitespace(cs[end - 1])
        invariant
            end <= cs@.len(),
            cs@ == s@,
            blank == |c: char| text::is_whitespace(c),
            text::back_while(s@, blank, 0, s@.len() as int) == text::back_while(
                s@,
                blank,
                0,
                end as int,
            ),
        decreases end,
    {
        end -= 1;
    }
    assert(cs@.subrange(0, end as int) == cs@.take(end as int));
    text::string_of(&cs, 0, end)
}

/// `s` without colons at its end.
fn trim_colons(s: &str) -> (r: String)
    ensures
        r@ == trim_colons_spec(s@),
{
    let cs = text::chars_of(s);
    let ghost colon = |c: char| c == ':';
    let mut end: usize = cs.len();
    while end > 0 && cs[end - 1] == ':'
        invariant
            end <= cs@.len(),
            cs@ == s@,
            colon == |c: char| c == ':',
            text::back_while(s@, colon, 0, s@.len() as int) == text::back_while(
                s@,
                colon,
                0,
                end as int,
            ),
        decreases end,
    {
        end -= 1;
    }
    assert(cs@.subrange(0, end as int) == cs@.take(end as int));
    text::string_of(&cs, 0, end)
}

/// `s` without white space around it.
pub fn trim(s: &str) -> (r: String)
    ensures
        r@ == text::trimmed(s@, |c: char| text::is_whitespace(c)),
{
    let cs = text::chars_of(s);
    let ghost blank = |c: char| text::is_whitespace(c);
    let mut from: usize = 0;
    while from < cs.len() && text::whitespace(cs[from])
        invariant
            from <= cs@.len(),
            cs@ == s@,
            blank == |c: char| text::is_whitespace(c),
            text::skip_while(s@, blank, 0) == text::skip_while(s@, blank, from as int),
        decreases cs@.len() - from,
    {
        from += 1;
    }
    let mut end: usize = cs.len();
    while end > from && text::whitespace(cs[end - 1])
        invariant
            from <= end <= cs@.len(),
            cs@ == s@,
            blank == |c: char| text::is_whitespace(c),
            text::back_while(s@, blank, from as int, s@.len() as int) == text::back_while(
                s@,
                blank,
                from as int,
                end as int,
            ),
        decreases end - from,
    {
        end -= 1;
    }
    text::string_of(&cs, from, end)
}

/// Trims a message GitHub sent to one short line, fit to sit after a status code.
pub fn one_line(message: &str) -> (r: String)
    ensures
        r@ == one_line_spec(message@),
{
    let line = trim(text::first_line(message).as_str());
    let cs = text::chars_of(line.as_str());
    if cs.len() <= LINE_LIMIT {
        return line;
    }
    let mut kept = text::string_of(&cs, 0, LINE_LIMIT - 1);
    assert(cs@.subrange(0, LINE_LIMIT - 1) == cs@.take(LINE_LIMIT - 1));
    kept.push('\u{2026}');
    kept
}

/// `s` in ASCII lower case.
pub fn to_lower(s: &str) -> (r: String)
    ensures
        r@ == lowered(s@),
{
    let cs = text::chars_of(s);
    let mut r = String::new();
    let mut i: usize = 0;
    while i < cs.len()
        invariant
            i <= cs@.len(),
            cs@ == s@,
            r@ == lowered(s@).take(i as int),
        decreases cs@.len() - i,
    {
        r.push(text::lower(cs[i]));
        i += 1;
        assert(r@ == lowered(s@).take(i as int));
    }
    assert(r@ == lowered(s@));
    r
}

/// Whether a refusal is about the request limit.
///
/// GitHub answers an exhausted limit with `403`, or `429` for the secondary limits, and says so in
/// the body. The status alone is not enough: a bad token is also a `403`.
pub fn is_rate_limited(status: u16, message: &str) -> (r: bool)
    ensures
        r == ((status == 403 || status == 429) && text::find_from(
            lowered(message@),
            "rate limit"@,
            0,
        ) is Some),
{
    if status == 403 || status == 429 {
        let lower = to_lower(message);
        text::contains(lower.as_str(), "rate limit")
    } else {
        false
    }
}

/// The error for a request that GitHub refused with this status and message.
pub fn refusal(status: u16, message: &str) -> (r: VendorError)
    ensures
        if (status == 403 || status == 429) && text::find_from(
            lowered(message@),
            "rate limit"@,
            0,
        ) is Some {
            r matches VendorError::RateLimited(detail) && detail@.len() == 0
        } else if status == 401 {
            r is BadCredentials
        } else {
            r matches VendorError::RequestFailed { status: s, message: m } && s == status && m@
                == one_line_spec(message@)
        },
{
    if is_rate_limited(status, message) {
        VendorError::RateLimited(String::new())
    } else if status == 401 {
        VendorError::BadCredentials
    } else {
        VendorError::RequestFailed { status, message: one_line(message) }
    }
}

/// A message of GitHub's is bounded before it reaches a row: one line of limited length.
pub proof fn one_line_is_bounded(message: Seq<char>)
    ensures
        one_line_spec(message).len() <= LINE_LIMIT,
        !one_line_spec(message).contains('\n'),
{
    let first = text::first_line_spec(message);
    text::lemma_first_index(message, '\n', 0);
    assert(!first.contains('\n'));
    let blank = |c: char| text::is_whitespace(c);
    text::lemma_skip_while(first, blank, 0);
    text::lemma_back_while(first, blank, text::skip_while(first, blank, 0), first.len() as int);
    let line = bare_line(message);
    assert(!line.contains('\n')) by {
        if line.contains('\n') {
            let i = line.index_of('\n');
            assert(first[text::skip_while(first, blank, 0) + i] == '\n');
        }
    }
}

/// A line without line breaks and without white space around it is its own bare line.
proof fn lemma_bare(line: Seq<char>)
    requires
        !line.contains('\n'),
        line.len() > 0 ==> !text::is_whitespace(line[0]) && !text::is_whitespace(line.last()),
    ensures
        bare_line(line) == line,
{
    text::lemma_first_index(line, '\n', 0);
    if text::first_index(line, '\n', 0) is Some {
        assert(line.contains(line[text::first_index(line, '\n', 0)->0]));
    }
    assert(text::first_line_spec(line) == line);
}

/// Reducing a message to one line a second time changes nothing.
pub proof fn one_line_is_idempotent(message: Seq<char>)
    ensures
        one_line_spec(one_line_spec(message)) == one_line_spec(message),
{
    one_line_is_bounded(message);
    let first = text::first_line_spec(message);
    let blank = |c: char| text::is_whitespace(c);
    text::lemma_skip_while(first, blank, 0);
    text::lemma_back_while(first, blank, text::skip_while(first, blank, 0), first.len() as int);
    lemma_bare(one_line_spec(message));
}

/// The brief form of an error fits one row: it has no line break and no white space at its end.
pub proof fn brief_is_one_line(error: VendorError)
    ensures
        !error.brief_spec().contains('\n'),
        error.brief_spec().len() > 0 ==> !text::is_whitespace(error.brief_spec().last()),
{
    let message = error.message();
    let blank = |c: char| text::is_whitespace(c);
    let colon = |c: char| c == ':';
    let first = text::first_line_spec(message);
    text::lemma_first_index(message, '\n', 0);
    assert(!first.contains('\n'));
    let a = trim_end_spec(first);
    text::lemma_back_while(first, blank, 0, first.len() as int);
    let b = trim_colons_spec(a);
    text::lemma_back_while(a, colon, 0, a.len() as int);
    let c = trim_end_spec(b);
    text::lemma_back_while(b, blank, 0, b.len() as int);
    assert forall|i: int| 0 <= i < c.len() implies c[i] != '\n' by {
        assert(c[i] == first[i]);
    }
}

/// A message holds a text.
pub open spec fn mentions(message: Seq<char>, part: Seq<char>) -> bool {
    exists|before: Seq<char>, after: Seq<char>|
        message == #[trigger] (before + part + after)
}

/// What is said of an error names all that it is about.
pub proof fn a_message_names_what_it_is_about(error: VendorError)
    ensures
        match error {
            VendorError::InvalidDependenciesKey(what) => mentions(error.message(), what@),
            VendorError::InvalidConfigKey(what) => mentions(error.message(), what@),
            VendorError::InvalidRepositoryKey { name } => mentions(error.message(), name@),
            VendorError::InvalidFilesKey { name } => mentions(error.message(), name@),
            VendorError::InvalidHashVersionFileKey { name } => mentions(error.message(), name@),
            VendorError::InvalidReleaseRegexKey { name } => mentions(error.message(), name@),
            VendorError::DependencyNotFound { name, path } => mentions(error.message(), name@) && mentions(error.message(), path@),
            VendorError::NoDependencyNamed(what) => mentions(error.message(), what@),
            VendorError::NoRepositoryForDependency(what) => mentions(error.message(), what@),
            VendorError::NoFilesForDependency(what) => mentions(error.message(), what@),
            VendorError::DependencyLocked(what) => mentions(error.message(), what@),
            VendorError::InvalidGitHubUrlQuoted(what) => mentions(error.message(), what@),
            VendorError::InvalidGitHubUrl(what) => mentions(error.message(), what@),
            VendorError::SingleSourceOption(what) => mentions(error.message(), what@),
            VendorError::VersionAsSource { version, suggestion } => mentions(error.message(), version@) && mentions(error.message(), suggestion@),
            VendorError::InvalidHashVersionFileTarget(what) => mentions(error.message(), what@),
            VendorError::CommitShaLookup { path, source } => mentions(error.message(), path@) && mentions(error.message(), source.message()),
            VendorError::NoCommitsFound { owner, repo, path } => mentions(error.message(), owner@) && mentions(error.message(), repo@) && mentions(error.message(), path@),
            VendorError::NoVersionFound(what) => mentions(error.message(), what@),
            VendorError::NonStringOutputWithoutRelease(what) => mentions(error.message(), what@),
            VendorError::FileNotFoundInRepo { file, repository } => mentions(error.message(), file@) && mentions(error.message(), repository@),
            VendorError::FileDownloadFailed { file, repository, version, source } => mentions(error.message(), source.message()) && mentions(error.message(), file@) && mentions(error.message(), repository@),
            VendorError::RepositoryNotFound { repository } => mentions(error.message(), repository@),
            VendorError::RequestFailed { status, message } => mentions(error.message(), text::decimal_spec(status as int)),
            VendorError::RateLimited(what) => mentions(error.message(), what@),
            VendorError::SaveFailed { path, source } => mentions(error.message(), path@) && mentions(error.message(), source.message@),
            VendorError::ReleaseNotFound { version, owner, repo } => mentions(error.message(), version@) && mentions(error.message(), owner@) && mentions(error.message(), repo@),
            VendorError::ReleaseAssetsMissing(what) => mentions(error.message(), what@),
            VendorError::ReleaseAssetNotFound { asset, url } => mentions(error.message(), asset@) && mentions(error.message(), url@),
            VendorError::ReleaseAssetDownloadFailed { asset, url } => mentions(error.message(), asset@) && mentions(error.message(), url@),
            VendorError::NoMatchingRelease { regex, owner, repo } => mentions(error.message(), regex@) && mentions(error.message(), owner@) && mentions(error.message(), repo@),
            VendorError::CannotExtract { file, source } => mentions(error.message(), file@) && mentions(error.message(), source.message()),
            VendorError::MoveFailed { from, to, source } => mentions(error.message(), from@) && mentions(error.message(), to@) && mentions(error.message(), source.message@),
            VendorError::NoSearchResults(what) => mentions(error.message(), what@),
            VendorError::NoSearchResultsDidYouMean { name, suggestion } => mentions(error.message(), name@) && mentions(error.message(), suggestion@),
            VendorError::KeyringDelete(what) => mentions(error.message(), what@),
            VendorError::RegistryUnreachable(what) => mentions(error.message(), what@),
            VendorError::RegistryUnreadable(what) => mentions(error.message(), what@),
            VendorError::RegistryTooNew { found, supported } => mentions(error.message(), text::decimal_spec(found as int)) && mentions(error.message(), text::decimal_spec(supported as int)),
            VendorError::RegistryInvalidEntry { name, reason } => mentions(error.message(), name@) && mentions(error.message(), reason@),
            VendorError::RegistryUnsupportedHost { name, host } => mentions(error.message(), name@) && mentions(error.message(), host@),
            VendorError::DeviceFlow(what) => mentions(error.message(), what@),
            VendorError::Io { source } => mentions(error.message(), source.message@),
            VendorError::DeleteFailed { path, source } => mentions(error.message(), path@) && mentions(error.message(), source.message@),
            VendorError::ReadFile { path, source } => mentions(error.message(), path@) && mentions(error.message(), source.message@),
            VendorError::WriteFile { path, source } => mentions(error.message(), path@) && mentions(error.message(), source.message@),
            VendorError::ParseConfig { path, message } => mentions(error.message(), path@) && mentions(error.message(), message@),
            VendorError::SerializeConfig { path, message } => mentions(error.message(), path@) && mentions(error.message(), message@),
            VendorError::Http(what) => mentions(error.message(), what@),
            _ => true,
        },
{
    match error {
        VendorError::InvalidDependenciesKey(what) => {
            assert(error.message() =~= ("Invalid vendorDependencies key in "@) + what@ + (Seq::<char>::empty()));
        },
        VendorError::InvalidConfigKey(what) => {
            assert(error.message() =~= ("Invalid vendorConfig key in "@) + what@ + (Seq::<char>::empty()));
        },
        VendorError::InvalidRepositoryKey { name } => {
            assert(error.message() =~= ("config key 'vendorDependencies."@) + name@ + (".repository' is not a valid github url"@));
        },
        VendorError::InvalidFilesKey { name } => {
            assert(error.message() =~= ("config key 'vendorDependencies."@) + name@ + (".files' is not a valid array"@));
        },
        VendorError::InvalidHashVersionFileKey { name } => {
            assert(error.message() =~= ("config key 'vendorDependencies."@) + name@ + (".hashVersionFile' must be a string or true"@));
        },
        VendorError::InvalidReleaseRegexKey { name } => {
            assert(error.message() =~= ("config key 'vendorDependencies."@) + name@ + (".releaseRegex' must be a valid regex string"@));
        },
        VendorError::DependencyNotFound { name, path } => {
            assert(error.message() =~= ("Dependency "@) + name@ + (" not found in "@ + path@));
            assert(error.message() =~= ("Dependency "@ + name@ + " not found in "@) + path@ + (Seq::<char>::empty()));
        },
        VendorError::NoDependencyNamed(what) => {
            assert(error.message() =~= ("No dependency found with name "@) + what@ + (Seq::<char>::empty()));
        },
        VendorError::NoRepositoryForDependency(what) => {
            assert(error.message() =~= ("No repository found for dependency "@) + what@ + (Seq::<char>::empty()));
        },
        VendorError::NoFilesForDependency(what) => {
            assert(error.message() =~= ("No files found for dependency "@) + what@ + (Seq::<char>::empty()));
        },
        VendorError::DependencyLocked(what) => {
            assert(error.message() =~= ("Dependency "@) + what@ + (" is locked and cannot be upgraded"@));
        },
        VendorError::InvalidGitHubUrlQuoted(what) => {
            assert(error.message() =~= ("Invalid GitHub URL \""@) + what@ + ("\""@));
        },
        VendorError::InvalidGitHubUrl(what) => {
            assert(error.message() =~= ("Invalid GitHub URL: "@) + what@ + (Seq::<char>::empty()));
        },
        VendorError::SingleSourceOption(what) => {
            assert(error.message() =~= (Seq::<char>::empty()) + what@ + (" describes one dependency, so it cannot be used with more than one source"@));
        },
        VendorError::VersionAsSource { version, suggestion } => {
            assert(error.message() =~= ("'"@) + version@ + ("' looks like a version, not a source. Did you mean '"@ + suggestion@ + "'?"@));
            assert(error.message() =~= ("'"@ + version@ + "' looks like a version, not a source. Did you mean '"@) + suggestion@ + ("'?"@));
        },
        VendorError::InvalidHashVersionFileTarget(what) => {
            assert(error.message() =~= ("files[0] is invalid for hashVersionFile, must be a string or an object - got "@) + what@ + (Seq::<char>::empty()));
        },
        VendorError::CommitShaLookup { path, source } => {
            assert(error.message() =~= ("Error while getting commit sha for "@) + path@ + (":\n"@ + source.message()));
            assert(error.message() =~= ("Error while getting commit sha for "@ + path@ + ":\n"@) + source.message() + (Seq::<char>::empty()));
        },
        VendorError::NoCommitsFound { owner, repo, path } => {
            assert(error.message() =~= ("No commits found for "@) + owner@ + ("/"@ + repo@ + ": "@ + path@));
            assert(error.message() =~= ("No commits found for "@ + owner@ + "/"@) + repo@ + (": "@ + path@));
            assert(error.message() =~= ("No commits found for "@ + owner@ + "/"@ + repo@ + ": "@) + path@ + (Seq::<char>::empty()));
        },
        VendorError::NoVersionFound(what) => {
            assert(error.message() =~= ("Could not find a version for "@) + what@ + (Seq::<char>::empty()));
        },
        VendorError::NonStringOutputWithoutRelease(what) => {
            assert(error.message() =~= ("File "@) + what@ + ("\nis not a string, and "@ + "{release}"@ + " is not used}"@));
        },
        VendorError::FileNotFoundInRepo { file, repository } => {
            assert(error.message() =~= ("File \""@) + file@ + ("\" was not found in "@ + repository@));
            assert(error.message() =~= ("File \""@ + file@ + "\" was not found in "@) + repository@ + (Seq::<char>::empty()));
        },
        VendorError::FileDownloadFailed { file, repository, version, source } => {
            assert(error.message() =~= (Seq::<char>::empty()) + source.message() + (":\nCould not download file \""@ + file@ + "\" from "@ + repository@ + at_version_spec(version@)));
            assert(error.message() =~= (source.message() + ":\nCould not download file \""@) + file@ + ("\" from "@ + repository@ + at_version_spec(version@)));
            assert(error.message() =~= (source.message() + ":\nCould not download file \""@ + file@ + "\" from "@) + repository@ + (at_version_spec(version@)));
        },
        VendorError::RepositoryNotFound { repository } => {
            assert(error.message() =~= ("Repository "@) + repository@ + (" does not exist, or you do not have access to it"@));
        },
        VendorError::RequestFailed { status, message } => {
            assert(error.message() =~= ("Request failed with status "@) + text::decimal_spec(status as int) + (status_detail_spec(message@)));
        },
        VendorError::RateLimited(what) => {
            assert(error.message() =~= ("GitHub API rate limit reached"@) + what@ + ("\nRun `vendor login` or use a GITHUB_TOKEN env variable - unauthenticated requests are limited to 60 an hour, a token to 5000"@));
        },
        VendorError::SaveFailed { path, source } => {
            assert(error.message() =~= ("Could not save "@) + path@ + (":\n"@ + source.message@ + in_use_hint_spec(source)));
            assert(error.message() =~= ("Could not save "@ + path@ + ":\n"@) + source.message@ + (in_use_hint_spec(source)));
        },
        VendorError::ReleaseNotFound { version, owner, repo } => {
            assert(error.message() =~= ("Release \""@) + version@ + ("\" was not found in "@ + owner@ + "/"@ + repo@));
            assert(error.message() =~= ("Release \""@ + version@ + "\" was not found in "@) + owner@ + ("/"@ + repo@));
            assert(error.message() =~= ("Release \""@ + version@ + "\" was not found in "@ + owner@ + "/"@) + repo@ + (Seq::<char>::empty()));
        },
        VendorError::ReleaseAssetsMissing(what) => {
            assert(error.message() =~= ("Release assets were not found in "@) + what@ + (Seq::<char>::empty()));
        },
        VendorError::ReleaseAssetNotFound { asset, url } => {
            assert(error.message() =~= ("Release asset \""@) + asset@ + ("\" was not found in "@ + url@ + "\nDid you forget to add a \"v\" before the version?"@));
            assert(error.message() =~= ("Release asset \""@ + asset@ + "\" was not found in "@) + url@ + ("\nDid you forget to add a \"v\" before the version?"@));
        },
        VendorError::ReleaseAssetDownloadFailed { asset, url } => {
            assert(error.message() =~= ("Release asset \""@) + asset@ + ("\" failed to download from "@ + url@));
            assert(error.message() =~= ("Release asset \""@ + asset@ + "\" failed to download from "@) + url@ + (Seq::<char>::empty()));
        },
        VendorError::NoMatchingRelease { regex, owner, repo } => {
            assert(error.message() =~= ("No releases found matching "@) + regex@ + (" in "@ + owner@ + "/"@ + repo@));
            assert(error.message() =~= ("No releases found matching "@ + regex@ + " in "@) + owner@ + ("/"@ + repo@));
            assert(error.message() =~= ("No releases found matching "@ + regex@ + " in "@ + owner@ + "/"@) + repo@ + (Seq::<char>::empty()));
        },
        VendorError::CannotExtract { file, source } => {
            assert(error.message() =~= ("file \""@) + file@ + ("\" cannot be extracted.\nplease check that it's either a zip | tar | tar.gz\n"@ + source.message()));
            assert(error.message() =~= ("file \""@ + file@ + "\" cannot be extracted.\nplease check that it's either a zip | tar | tar.gz\n"@) + source.message() + (Seq::<char>::empty()));
        },
        VendorError::MoveFailed { from, to, source } => {
            assert(error.message() =~= ("Error while moving file \""@) + from@ + ("\" to \""@ + to@ + "\":\n"@ + source.message@));
            assert(error.message() =~= ("Error while moving file \""@ + from@ + "\" to \""@) + to@ + ("\":\n"@ + source.message@));
            assert(error.message() =~= ("Error while moving file \""@ + from@ + "\" to \""@ + to@ + "\":\n"@) + source.message@ + (Seq::<char>::empty()));
        },
        VendorError::NoSearchResults(what) => {
            assert(error.message() =~= ("No results found for \""@) + what@ + ("\""@));
        },
        VendorError::NoSearchResultsDidYouMean { name, suggestion } => {
            assert(error.message() =~= ("No results found for \""@) + name@ + ("\"\nDid you mean "@ + suggestion@ + "?"@));
            assert(error.message() =~= ("No results found for \""@ + name@ + "\"\nDid you mean "@) + suggestion@ + ("?"@));
        },
        VendorError::KeyringDelete(what) => {
            assert(error.message() =~= ("Could not remove the stored token: "@) + what@ + (Seq::<char>::empty()));
        },
        VendorError::RegistryUnreachable(what) => {
            assert(error.message() =~= ("Could not reach the program registry: "@) + what@ + (Seq::<char>::empty()));
        },
        VendorError::RegistryUnreadable(what) => {
            assert(error.message() =~= ("The program registry could not be read: "@) + what@ + (Seq::<char>::empty()));
        },
        VendorError::RegistryTooNew { found, supported } => {
            assert(error.message() =~= ("The program registry is version "@) + text::decimal_spec(found as int) + (", but this vendor understands "@ + text::decimal_spec(supported as int) + ". Update vendor to install by name."@));
            assert(error.message() =~= ("The program registry is version "@ + text::decimal_spec(found as int) + ", but this vendor understands "@) + text::decimal_spec(supported as int) + (". Update vendor to install by name."@));
        },
        VendorError::RegistryInvalidEntry { name, reason } => {
            assert(error.message() =~= ("The registry entry for '"@) + name@ + ("' is unusable: "@ + reason@));
            assert(error.message() =~= ("The registry entry for '"@ + name@ + "' is unusable: "@) + reason@ + (Seq::<char>::empty()));
        },
        VendorError::RegistryUnsupportedHost { name, host } => {
            assert(error.message() =~= ("'"@) + name@ + ("' is in the registry but has no release for "@ + host@));
            assert(error.message() =~= ("'"@ + name@ + "' is in the registry but has no release for "@) + host@ + (Seq::<char>::empty()));
        },
        VendorError::DeviceFlow(what) => {
            assert(error.message() =~= (Seq::<char>::empty()) + what@ + (Seq::<char>::empty()));
        },
        VendorError::Io { source } => {
            assert(error.message() =~= (Seq::<char>::empty()) + source.message@ + (Seq::<char>::empty()));
        },
        VendorError::DeleteFailed { path, source } => {
            assert(error.message() =~= ("Could not delete "@) + path@ + (": "@ + source.message@ + in_use_hint_spec(source)));
            assert(error.message() =~= ("Could not delete "@ + path@ + ": "@) + source.message@ + (in_use_hint_spec(source)));
        },
        VendorError::ReadFile { path, source } => {
            assert(error.message() =~= ("Could not read "@) + path@ + (": "@ + source.message@));
            assert(error.message() =~= ("Could not read "@ + path@ + ": "@) + source.message@ + (Seq::<char>::empty()));
        },
        VendorError::WriteFile { path, source } => {
            assert(error.message() =~= ("Could not write "@) + path@ + (": "@ + source.message@));
            assert(error.message() =~= ("Could not write "@ + path@ + ": "@) + source.message@ + (Seq::<char>::empty()));
        },
        VendorError::ParseConfig { path, message } => {
            assert(error.message() =~= ("Failed to parse "@) + path@ + (": "@ + message@));
            assert(error.message() =~= ("Failed to parse "@ + path@ + ": "@) + message@ + (Seq::<char>::empty()));
        },
        VendorError::SerializeConfig { path, message } => {
            assert(error.message() =~= ("Failed to serialize "@) + path@ + (": "@ + message@));
            assert(error.message() =~= ("Failed to serialize "@ + path@ + ": "@) + message@ + (Seq::<char>::empty()));
        },
        VendorError::Http(what) => {
            assert(error.message() =~= (Seq::<char>::empty()) + what@ + (Seq::<char>::empty()));
        },
        _ => {},
    }
}

/// Where a message speaks of two things, they come in one order: what was wanted before where, what
/// moved before where it went, what was asked before what was perhaps meant.
pub proof fn a_message_keeps_its_order(error: VendorError)
    ensures
        match error {
            VendorError::MoveFailed { from, to, .. } => mentions(
                error.message(),
                from@ + "\" to \""@ + to@,
            ),
            VendorError::NoSearchResultsDidYouMean { name, suggestion } => mentions(
                error.message(),
                name@ + "\"\nDid you mean "@ + suggestion@,
            ),
            VendorError::DependencyNotFound { name, path } => mentions(
                error.message(),
                name@ + " not found in "@ + path@,
            ),
            VendorError::ReleaseNotFound { version, owner, repo } => mentions(
                error.message(),
                version@ + "\" was not found in "@ + owner@ + "/"@ + repo@,
            ),
            VendorError::RegistryTooNew { found, supported } => mentions(
                error.message(),
                text::decimal_spec(found as int) + ", but this vendor understands "@
                    + text::decimal_spec(supported as int),
            ),
            _ => true,
        },
{
    let empty = Seq::<char>::empty();
    match error {
        VendorError::MoveFailed { from, to, source } => {
            assert(error.message() =~= "Error while moving file \""@ + (from@ + "\" to \""@ + to@) + (
            "\":\n"@ + source.message@));
        },
        VendorError::NoSearchResultsDidYouMean { name, suggestion } => {
            assert(error.message() =~= "No results found for \""@ + (name@ + "\"\nDid you mean "@
                + suggestion@) + "?"@);
        },
        VendorError::DependencyNotFound { name, path } => {
            assert(error.message() =~= "Dependency "@ + (name@ + " not found in "@ + path@) + empty);
        },
        VendorError::ReleaseNotFound { version, owner, repo } => {
            assert(error.message() =~= "Release \""@ + (version@ + "\" was not found in "@ + owner@
                + "/"@ + repo@) + empty);
        },
        VendorError::RegistryTooNew { found, supported } => {
            assert(error.message() =~= "The program registry is version "@ + (text::decimal_spec(
                found as int,
            ) + ", but this vendor understands "@ + text::decimal_spec(supported as int))
                + ". Update vendor to install by name."@);
        },
        _ => {},
    }
}

/// A message is reduced to its first line, without white space around it; a short line stays whole.
pub proof fn the_first_line_is_kept(line: Seq<char>, rest: Seq<char>, blank: char)
    requires
        0 < line.len() <= LINE_LIMIT,
        !line.contains('\n'),
        !text::is_whitespace(line[0]),
        !text::is_whitespace(line.last()),
        text::is_whitespace(blank),
        blank != '\n',
    ensures
        one_line_spec(line) == line,
        one_line_spec(line.push('\n') + rest) == line,
        one_line_spec(seq![blank] + line + seq![blank]) == line,
{
    lemma_bare(line);
    let more = line.push('\n') + rest;
    let n = line.len() as int;
    text::lemma_first_index(more, '\n', 0);
    assert(more[n] == '\n');
    assert forall|i: int| 0 <= i < n implies more[i] != '\n' by {
        assert(more[i] == line[i]);
        assert(line.contains(line[i]));
    }
    assert(text::first_index(more, '\n', 0) == Some(n));
    assert(more.take(n) =~= line);
    assert(text::first_line_spec(more) == text::first_line_spec(line)) by {
        text::lemma_first_index(line, '\n', 0);
        if let Some(at) = text::first_index(line, '\n', 0) {
            assert(line.contains(line[at]));
        }
    }
    let padded = seq![blank] + line + seq![blank];
    let m = padded.len() as int;
    text::lemma_first_index(padded, '\n', 0);
    assert forall|i: int| 0 <= i < m implies padded[i] != '\n' by {
        if 0 < i < m - 1 {
            assert(padded[i] == line[i - 1]);
            assert(line.contains(line[i - 1]));
        }
    }
    assert(text::first_line_spec(padded) == padded);
    let white = |c: char| text::is_whitespace(c);
    assert(padded[0] == blank && padded[1] == line[0] && padded[m - 1] == blank && padded[m - 2]
        == line[n - 1]);
    text::lemma_skip_to(padded, white, 0, 1);
    reveal_with_fuel(text::back_while, 2);
    assert(text::back_while(padded, white, 1, m) == m - 1);
    assert(padded.subrange(1, m - 1) =~= line);
}

/// The brief form of an error is what its first line says before a colon at the end.
pub proof fn the_brief_form_ends_before_the_colon(error: VendorError, head: Seq<char>, rest: Seq<char>)
    requires
        head.len() > 0,
        !head.contains('\n'),
        !text::is_whitespace(head.last()),
        head.last() != ':',
        error.message() == head + seq![':', '\n'] + rest,
    ensures
        error.brief_spec() == head,
{
    let message = error.message();
    let n = head.len() as int;
    let first = head.push(':');
    text::lemma_first_index(message, '\n', 0);
    assert(message[n + 1] == '\n' && message[n] == ':');
    assert forall|i: int| 0 <= i < n + 1 implies message[i] != '\n' by {
        if i < n {
            assert(message[i] == head[i]);
            assert(head.contains(head[i]));
        }
    }
    assert(text::first_index(message, '\n', 0) == Some(n + 1));
    assert(message.take(n + 1) =~= first);
    assert(text::first_line_spec(message) =~= first);
    let white = |c: char| text::is_whitespace(c);
    let colon = |c: char| c == ':';
    assert(!white(':'));
    reveal_with_fuel(text::back_while, 2);
    assert(text::back_while(first, white, 0, n + 1) == n + 1);
    assert(first.take(n + 1) =~= first);
    assert(first[n] == ':' && first[n - 1] == head[n - 1]);
    assert(text::back_while(first, colon, 0, n + 1) == n);
    assert(first.take(n) =~= head);
    assert(text::back_while(head, white, 0, n) == n);
    assert(head.take(n) =~= head);
}

/// Only a capital letter has another lower case, and only Windows says that a file is in use.
pub proof fn only_capitals_are_lowered(s: Seq<char>, i: int, source: IoFailure)
    requires
        0 <= i < s.len(),
    ensures
        lowered(s).len() == s.len(),
        'A' <= s[i] && s[i] <= 'Z' ==> lowered(s)[i] as int == s[i] as int + 32,
        !('A' <= s[i] && s[i] <= 'Z') ==> lowered(s)[i] == s[i],
        !source.on_windows || source.code is None ==> in_use_hint_spec(source).len() == 0,
{
}

/// What a failure has to add is added behind its words, and nothing is where there is nothing to add.
pub proof fn a_detail_is_added_where_there_is_one(detail: Seq<char>)
    ensures
        detail.len() == 0 ==> at_version_spec(detail).len() == 0 && status_detail_spec(detail).len()
            == 0,
        detail.len() > 0 ==> at_version_spec(detail) == " with version "@ + detail
            && status_detail_spec(detail) == ": "@ + detail,
{
}

} // verus!
