//! The data types the store operations take and return, and the failure kinds
//! they surface.

use vstd::prelude::*;

verus! {

/// Which threads a listing asks for: every thread, the threads of one
/// section, or the threads of one subsection.
pub enum ThreadsQueryType {
    All,
    Section,
    SubSection,
}

/// Parameters of a thread listing: the filter kind, the section or
/// subsection id where the filter needs one, and a 1-based page number.
pub struct ThreadQuery {
    pub query_type: ThreadsQueryType,
    pub id: Option<u32>,
    pub page: u32,
}

/// One page of threads together with the total count matching the filter.
pub struct ThreadQueryResult {
    pub threads: Vec<Thread>,
    pub count: u32,
}

/// An authenticated user: a stable id and a unique name.
pub struct User {
    pub id: u32,
    pub name: String,
}

/// A top-level forum category.
pub struct Section {
    pub id: u32,
    pub name: String,
}

/// A forum category inside one section.
pub struct SubSection {
    pub id: u32,
    pub section_id: u32,
    pub name: String,
}

/// The visible category tree plus the fixed page sizes, so clients need not
/// hardcode pagination.
pub struct ForumStructure {
    pub sections: Vec<Section>,
    pub subsections: Vec<SubSection>,
    pub threads_per_page: u32,
    pub messages_per_page: u32,
}

/// A thread as listings return it: the row joined with its author and the
/// latest message.
pub struct Thread {
    pub id: u32,
    pub sub_section_id: u32,
    pub name: String,
    pub author: User,
    pub total_messages: u32,
    pub creation_date_time: u64,
    pub last_message_user: User,
    pub last_message_id: u32,
    pub last_message_date_time: u64,
}

/// A message joined with its author. Ids are 1-based and dense within the
/// owning thread.
pub struct Message {
    pub id: u32,
    pub user: User,
    pub thread_id: u32,
    pub create_time: u64,
    pub update_time: u64,
    pub content: String,
}

/// A comment joined with its author. Ids are 1-based and dense within the
/// owning article.
pub struct Comment {
    pub id: u32,
    pub user: User,
    pub acticle_id: u32,
    pub create_time: u64,
    pub update_time: u64,
    pub content: String,
}

/// Parameters for creating a section.
pub struct PostNewSection {
    pub name: String,
}

/// Parameters for creating a subsection under a section.
pub struct PostNewSubsection {
    pub name: String,
    pub section_id: u32,
}

/// Parameters for renaming a section.
pub struct RenameSection {
    pub name: String,
    pub section_id: u32,
}

/// Parameters for renaming a subsection.
pub struct RenameSubsection {
    pub name: String,
    pub subsection_id: u32,
}

/// Parameters for renaming a thread.
pub struct RenameThread {
    pub name: String,
    pub thread_id: u32,
}

/// Parameters for moving a thread to another subsection.
pub struct MoveThread {
    pub thread_id: u32,
    pub new_subsection_id: u32,
}

/// Parameters for soft-deleting a thread.
pub struct DeleteThread {
    pub thread_id: u32,
}

/// Parameters for moving a subsection to another section.
pub struct MoveSubsection {
    pub subsection_id: u32,
    pub new_section_id: u32,
}

/// Parameters for posting a message to an existing thread.
pub struct PostMessage {
    pub message: String,
    pub thread_id: u32,
}

/// Parameters for creating a thread together with its first message.
pub struct CreateThreadMessage {
    pub message: String,
    pub thread_name: String,
    pub subsection_id: u32,
}

/// Parameters for editing a message's content.
pub struct UpdateMessage {
    pub message: String,
    pub message_id: u32,
    pub thread_id: u32,
}

/// Parameters for editing a comment's content.
pub struct UpdateComment {
    pub message: String,
    pub comment_id: u32,
    pub article_id: u32,
}

/// Free-text search input for messages.
pub struct MessageSearchParams {
    pub query: String,
}

/// Free-text search input for articles.
pub struct ArticleSearchParams {
    pub query: String,
}

/// One message hit of a full-text search, with its thread's name attached.
pub struct MessageSearchResult {
    pub id: u32,
    pub thread_id: u32,
    pub thread_name: String,
    pub create_time: u64,
    pub user: User,
    pub content: String,
}

/// The message hits of one full-text search.
pub struct MessageSearchResults {
    pub messages: Vec<MessageSearchResult>,
}

/// One session token, as listings of a user's sessions return it.
pub struct UserSession {
    pub session: String,
}

/// Every session belonging to one user.
pub struct UserSessions {
    pub sessions: Vec<UserSession>,
}

/// Credentials presented at sign-on.
pub struct SignOnParams {
    pub user_name: String,
    pub password: String,
}

/// Credentials presented at sign-up.
pub struct SignUpParams {
    pub user_name: String,
    pub password: String,
}

/// Parameters for removing one session of the calling user.
pub struct RemoveSession {
    pub session: String,
}

/// Parameters for logging out: one session or all of them.
pub struct LogoutParams {
    pub remove_all_sessions: bool,
}

/// A registered upload: the opaque mapping id, the name shown to clients and
/// the mime type.
pub struct UploadedFile {
    pub id: String,
    pub file_name: String,
    pub mime: String,
}

/// The uploads registered by one request.
pub struct UploadedFiles {
    pub files: Vec<UploadedFile>,
}

/// An upload joined with the content-addressed location of its bytes.
pub struct UploadedFileWithLocation {
    pub file: UploadedFile,
    pub file_path: String,
}

/// The failure kinds an operation can surface. All are terminal for the
/// operation; none is retried by the library.
#[derive(Debug, Clone)]
pub enum LogicError {
    /// An insert affected zero rows.
    CreateError,
    /// No article row matched, or the caller may not see it.
    ArticleNotFound,
    SectionNotFound,
    SubsectionNotFound,
    ThreadNotFound,
    MessageNotFound,
    /// The presented credential is not valid hex.
    InvalidPass,
    /// No credential was presented at all.
    NoSession,
    /// A credential was presented but resolves to no user.
    UserNotLoggedIn,
}

/// Parameters of a message listing: the thread and a 1-based page number.
pub struct MessagesQuery {
    pub thread_id: u32,
    pub page: u32,
}

/// One page of a thread's messages together with the thread itself.
pub struct MessagesQueryResult {
    pub thread: Thread,
    pub messages: Vec<Message>,
}

/// Parameters of a comment listing: the article and a 1-based page number.
pub struct CommentsQuery {
    pub article_id: u32,
    pub page: u32,
}

/// One page of an article's comments, the total count, and the article's
/// minimal metadata.
pub struct CommentsQueryResult {
    pub article_info: ArticleInfo,
    pub comments: Vec<Comment>,
    pub total_comments: u32,
}

/// Minimal article metadata: id, path and current name.
pub struct ArticleInfo {
    pub id: u32,
    pub path: String,
    pub name: String,
}

/// An article listing.
pub struct Articles {
    pub articles: Vec<ArticleInfo>,
}

/// One run of search-snippet text: plain, or inside a highlighted span.
pub enum SearchResultFragment {
    Normal(String),
    Highlight(String),
}

/// One article hit of a full-text search, with its snippet split into runs.
pub struct ArticleSearchResult {
    pub info: ArticleInfo,
    pub text: Vec<SearchResultFragment>,
}

/// The article hits of one full-text search.
pub struct ArticleSearchResults {
    pub articles: Vec<ArticleSearchResult>,
}

/// One entry of an article's version history.
pub struct ArticleVersion {
    pub version: u32,
    pub create_time: u64,
    pub user: User,
    pub active: bool,
}

/// Who may read an article: everyone, or only its owner.
pub enum ArticleVisibility {
    Public,
    Private,
}

/// Parameters for posting a comment; `article_version` names the version
/// commented on, defaulting to the active one.
pub struct PostComment {
    pub message: String,
    pub article_id: u32,
    pub article_version: Option<u32>,
}

/// A full article read: one version's fields, the live comment count and the
/// whole version history.
pub struct Article {
    pub info: ArticleInfo,
    pub content: String,
    pub user: User,
    pub create_time: u64,
    pub version: u32,
    pub content_id: Option<u64>,
    pub active: bool,
    pub comments_count: u32,
    pub visibility: ArticleVisibility,
    pub versions: Vec<ArticleVersion>,
}

/// Parameters for creating an article.
pub struct CreateArticle {
    pub path: String,
    pub name: String,
    pub content: String,
    pub visibility: ArticleVisibility,
}

/// Parameters for editing an article: the new snapshot of every field.
pub struct UpdateArticle {
    pub id: u32,
    pub path: String,
    pub name: String,
    pub content: String,
    pub visibility: ArticleVisibility,
}

/// Parameters for deleting an article.
pub struct DeleteArticle {
    pub id: u32,
}

/// Parameters for marking an article as a favorite.
pub struct AddFavoriteArticle {
    pub id: u32,
}

/// Parameters for unmarking a favorite article.
pub struct RemoveFavoriteArticle {
    pub id: u32,
}

/// Parameters of an article read: the id and, for a historical read, the
/// version.
pub struct GetArticle {
    pub id: u32,
    pub version: Option<u32>,
}

impl ArticleVisibility {
    /// True of `Public`.
    pub fn is_public(&self) -> (r: bool)
        ensures
            r == (*self is Public),
    {
        match self {
            ArticleVisibility::Public => true,
            ArticleVisibility::Private => false,
        }
    }
}

impl LogicError {
    /// The failure's description, as callers print it.
    pub fn message(&self) -> (r: &'static str)
        ensures
            *self is CreateError ==> r@ == "Create error"@,
            *self is ArticleNotFound ==> r@ == "Article not found"@,
            *self is SectionNotFound ==> r@ == "Section not found"@,
            *self is SubsectionNotFound ==> r@ == "Subsection not found"@,
            *self is ThreadNotFound ==> r@ == "Thread not found"@,
            *self is MessageNotFound ==> r@ == "Message not found"@,
            *self is InvalidPass ==> r@ == "Invalid pass"@,
            *self is NoSession ==> r@ == "No session"@,
            *self is UserNotLoggedIn ==> r@ == "User is not logged in"@,
    {
        match self {
            LogicError::CreateError => "Create error",
            LogicError::ArticleNotFound => "Article not found",
            LogicError::SectionNotFound => "Section not found",
            LogicError::SubsectionNotFound => "Subsection not found",
            LogicError::ThreadNotFound => "Thread not found",
            LogicError::MessageNotFound => "Message not found",
            LogicError::InvalidPass => "Invalid pass",
            LogicError::NoSession => "No session",
            LogicError::UserNotLoggedIn => "User is not logged in",
        }
    }
}

} // verus!
