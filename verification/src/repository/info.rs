//! What a remote tells of a repository.

use vstd::prelude::*;
use vstd::string::*;

use crate::errors::ErrorKind;
use crate::hexadecimal::hex_text;
use crate::repository::full_url;
use crate::repository::parse_url;
use crate::repository::parsed_url;
use crate::repository::remote_of;
use crate::repository::RepositoryError;
use crate::repository::RepositoryMetadata;
use crate::types::BranchId;
use crate::types::RepositoryId;

verus! {

/// Descriptive data for a repository.
#[derive(Debug)]
pub struct LoreRepositoryDataEventData {
    /// Remote URL of the repository.
    pub remote_url: String,
    /// Repository identifier.
    pub id: RepositoryId,
    /// Repository name.
    pub name: String,
    /// Repository description.
    pub description: String,
    /// Identifier of the default branch.
    pub default_branch: BranchId,
    /// Name of the default branch.
    pub default_branch_name: String,
    /// Name of the user who created the repository.
    pub creator: String,
    /// Creation time of the repository, in seconds since the Unix epoch.
    pub created: u64,
}

/// The URL that is asked for: the given one, or that of the repository in the
/// working directory, which needs a remote.
pub open spec fn url_of(
    given: Option<Seq<char>>,
    remote_url: Option<Seq<char>>,
    id: RepositoryId,
) -> Option<Seq<char>> {
    match given {
        Some(url) => Some(url),
        None => match remote_url {
            Some(remote) => Some(remote + "/"@ + hex_text(id.data@)),
            None => None,
        },
    }
}

/// The view of an optional text.
pub open spec fn text_view(text: Option<&str>) -> Option<Seq<char>> {
    match text {
        Some(t) => Some(t@),
        None => None,
    }
}

/// The URL that is asked for.
pub fn info_url(given: Option<&str>, remote_url: Option<&str>, id: RepositoryId) -> (result: Result<
    String,
    RepositoryError,
>)
    ensures
        ({
            let wanted = url_of(text_view(given), text_view(remote_url), id);
            &&& result is Ok <==> wanted is Some
            &&& result matches Ok(url) ==> wanted == Some(url@)
            &&& result matches Err(e) ==> e.kind == ErrorKind::Internal && e.detail@
                == "Invalid URL"@
        }),
{
    match given {
        Some(url) => Ok(url.to_owned()),
        None => match remote_url {
            Some(remote) => {
                let mut url = remote.to_owned();
                url.append("/");
                url.append(id.to_text().as_str());
                Ok(url)
            },
            None => Err(
                RepositoryError { kind: ErrorKind::Internal, detail: "Invalid URL".to_owned() },
            ),
        },
    }
}

/// The remote to ask, and the name to ask it for.
pub fn info_remote(
    given: Option<&str>,
    remote_url: Option<&str>,
    id: RepositoryId,
    default_protocol: &str,
) -> (result: Result<(String, String), RepositoryError>)
    ensures
        ({
            let wanted = url_of(text_view(given), text_view(remote_url), id);
            let parsed = parsed_url(full_url(wanted->0, default_protocol@));
            &&& result is Ok <==> wanted is Some && parsed is Some && remote_of(parsed->0) is Some
            &&& result matches Ok(remote) ==> remote_of(parsed->0) == Some((remote.0@, remote.1@))
            &&& result matches Err(e) ==> e.kind == ErrorKind::Internal && e.detail@
                == "Invalid URL"@
        }),
{
    match info_url(given, remote_url, id) {
        Ok(url) => parse_url(url.as_str(), false, default_protocol),
        Err(error) => Err(error),
    }
}

/// What is reported of a repository.
pub fn info(remote_url: String, id: RepositoryId, metadata: RepositoryMetadata) -> (event:
    LoreRepositoryDataEventData)
    ensures
        event.remote_url@ == remote_url@,
        event.id == id,
        event.name@ == metadata.name@,
        event.description@ == metadata.description@,
        event.default_branch == metadata.default_branch,
        event.default_branch_name@ == metadata.default_branch_name@,
        event.creator@ == metadata.creator@,
        event.created == metadata.created,
{
    LoreRepositoryDataEventData {
        remote_url,
        id,
        name: metadata.name,
        description: metadata.description,
        default_branch: metadata.default_branch,
        default_branch_name: metadata.default_branch_name,
        creator: metadata.creator,
        created: metadata.created,
    }
}

} // verus!
