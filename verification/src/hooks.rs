//! The targets that new posts are handed to.
use vstd::prelude::*;
use crate::models::Post;
use crate::text::{last_piece, last_piece_str};

verus! {

/// A Discord webhook: each post is sent to it as a message that holds the
/// post's file URL.
pub struct Discord {
    webhook_url: String,
}

impl Clone for Discord {
    fn clone(&self) -> (d: Self)
        ensures
            d == *self,
    {
        Discord { webhook_url: self.webhook_url.clone() }
    }
}

impl Discord {
    /// The webhook URL of this hook.
    pub closed spec fn url(&self) -> Seq<char> {
        self.webhook_url@
    }

    /// A hook that posts to `webhook_url`.
    pub fn new(webhook_url: &str) -> (d: Self)
        ensures
            d.url() == webhook_url@,
    {
        Discord { webhook_url: webhook_url.to_owned() }
    }

    /// The webhook URL of this hook.
    pub fn webhook_url(&self) -> (url: &str)
        ensures
            url@ == self.url(),
    {
        self.webhook_url.as_str()
    }

    /// The text of the message that announces `post`: its file URL.
    pub fn message(&self, post: &Post) -> (content: String)
        ensures
            content@ == post.file_url@,
    {
        post.file_url.clone()
    }
}

/// A directory that each post's file is downloaded into, with its metadata
/// beside it where `store_metadata` is set.
pub struct Local {
    directory: String,
    store_metadata: bool,
}

impl Clone for Local {
    fn clone(&self) -> (l: Self)
        ensures
            l == *self,
    {
        Local { directory: self.directory.clone(), store_metadata: self.store_metadata }
    }
}

/// The name of the file that a post's file URL is stored under: the text after
/// the URL's last `/`.
pub open spec fn post_file_name(file_url: Seq<char>) -> Seq<char> {
    last_piece(file_url, '/')
}

/// The name of the file that holds a post's metadata: its file name followed by
/// `.meta.json`.
pub open spec fn post_meta_file_name(file_url: Seq<char>) -> Seq<char> {
    post_file_name(file_url) + ".meta.json"@
}

impl Local {
    /// The directory of this hook.
    pub closed spec fn dir(&self) -> Seq<char> {
        self.directory@
    }

    /// Whether this hook stores the metadata of each post.
    pub closed spec fn keeps_metadata(&self) -> bool {
        self.store_metadata
    }

    /// A hook that stores posts in `directory`, with their metadata where
    /// `store_metadata` is set.
    pub fn new(directory: String, store_metadata: bool) -> (l: Self)
        ensures
            l.dir() == directory@,
            l.keeps_metadata() == store_metadata,
    {
        Local { directory, store_metadata }
    }

    /// The directory of this hook.
    pub fn directory(&self) -> (d: &str)
        ensures
            d@ == self.dir(),
    {
        self.directory.as_str()
    }

    /// Whether this hook stores the metadata of each post.
    pub fn store_metadata(&self) -> (b: bool)
        ensures
            b == self.keeps_metadata(),
    {
        self.store_metadata
    }

    /// The name that `post`'s file is stored under in the directory.
    pub fn file_name<'a>(&self, post: &'a Post) -> (name: &'a str)
        ensures
            name@ == post_file_name(post.file_url@),
    {
        last_piece_str(post.file_url.as_str(), '/')
    }

    /// The name that `post`'s metadata is stored under in the directory.
    pub fn meta_file_name(&self, post: &Post) -> (name: String)
        ensures
            name@ == post_meta_file_name(post.file_url@),
    {
        let mut name = self.file_name(post).to_owned();
        name.append(".meta.json");
        name
    }
}

/// The kinds of hook that a watcher can hand its new posts to.
pub enum HookImpl {
    Discord(Discord),
    Local(Local),
}

/// What a hook is: where it sends posts.
pub enum HookView {
    Discord { url: Seq<char> },
    Local { dir: Seq<char>, store_metadata: bool },
}

impl View for HookImpl {
    type V = HookView;

    open spec fn view(&self) -> HookView {
        match self {
            HookImpl::Discord(d) => HookView::Discord { url: d.url() },
            HookImpl::Local(l) => HookView::Local { dir: l.dir(), store_metadata: l.keeps_metadata() },
        }
    }
}

/// The views of a list of hooks.
pub open spec fn hook_views(hs: Seq<HookImpl>) -> Seq<HookView> {
    hs.map_values(|h: HookImpl| h@)
}

impl Clone for HookImpl {
    fn clone(&self) -> (h: Self)
        ensures
            h == *self,
    {
        match self {
            HookImpl::Discord(d) => HookImpl::Discord(d.clone()),
            HookImpl::Local(l) => HookImpl::Local(l.clone()),
        }
    }
}

/// A program that is run with the new posts, as JSON, on its standard input:
/// once per post where `once_per_post` is set, else once with all of them.
pub struct Command {
    pub run: String,
    pub args: Option<Vec<String>>,
    pub env: Option<Vec<(String, String)>>,
    pub once_per_post: bool,
}

/// How a command is shown: the program, then each argument after a space and
/// in double quotes.
pub open spec fn command_text(run: Seq<char>, args: Seq<Seq<char>>) -> Seq<char>
    decreases args.len(),
{
    if args.len() == 0 {
        run
    } else {
        command_text(run, args.drop_last()) + " \""@ + args.last() + "\""@
    }
}

/// The runs of a command over `n` posts, each the range `[start, end)` of the
/// posts that it is handed: one run per post, or one run with all of them
/// (also where there are none).
pub open spec fn command_batches(once_per_post: bool, n: nat) -> Seq<(usize, usize)> {
    if once_per_post {
        Seq::new(n, |i: int| (i as usize, (i + 1) as usize))
    } else {
        seq![(0usize, n as usize)]
    }
}

impl Command {
    /// The arguments of the command, none where it has none.
    pub open spec fn arg_views(&self) -> Seq<Seq<char>> {
        match self.args {
            Some(a) => crate::text::string_views(a@),
            None => Seq::empty(),
        }
    }

    /// The command as it is shown in the log: the program, then each argument
    /// after a space and in double quotes.
    pub fn describe(&self) -> (text: String)
        ensures
            text@ == command_text(self.run@, self.arg_views()),
    {
        let mut text = self.run.clone();
        match &self.args {
            None => {},
            Some(args) => {
                let mut i: usize = 0;
                assert(crate::text::string_views(args@).take(0) =~= Seq::<Seq<char>>::empty());
                while i < args.len()
                    invariant
                        i <= args.len(),
                        self.args == Some(*args),
                        text@ == command_text(
                            self.run@,
                            crate::text::string_views(args@).take(i as int),
                        ),
                    decreases args.len() - i,
                {
                    assert(crate::text::string_views(args@).take(i + 1).drop_last()
                        =~= crate::text::string_views(args@).take(i as int));
                    text.append(" \"");
                    text.append(args[i].as_str());
                    text.append("\"");
                    i = i + 1;
                }
                assert(crate::text::string_views(args@).take(args.len() as int)
                    =~= crate::text::string_views(args@));
            },
        }
        text
    }

    /// The runs of the command for `n` posts.
    pub fn batches(&self, n: usize) -> (runs: Vec<(usize, usize)>)
        requires
            n < usize::MAX,
        ensures
            runs@ == command_batches(self.once_per_post, n as nat),
    {
        let mut runs: Vec<(usize, usize)> = Vec::new();
        if self.once_per_post {
            let mut i: usize = 0;
            while i < n
                invariant
                    i <= n < usize::MAX,
                    runs@ =~= Seq::new(i as nat, |k: int| (k as usize, (k + 1) as usize)),
                decreases n - i,
            {
                runs.push((i, i + 1));
                i = i + 1;
            }
        } else {
            runs.push((0, n));
        }
        runs
    }
}

} // verus!
