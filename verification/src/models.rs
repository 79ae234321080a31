//! The posts that the API lists.
use vstd::prelude::*;
use crate::text::{
    join, law_space_words, law_split_trimmed_items, law_words_round_trip, nonempty_pieces,
    only_spaces_white, split_on, split_trimmed, trim, trim_str, trimmed_nonempty, views_of,
};

verus! {

/// A listing of posts: the total `count` of posts that match the query, the
/// `offset` of this page, and the posts of this page.
pub struct Posts {
    pub count: u64,
    pub offset: u64,
    pub posts: Vec<Post>,
}

/// One post, with the attributes that the API gives for it.
pub struct Post {
    pub height: u64,
    pub score: u64,
    pub file_url: String,
    pub parent_id: String,
    pub sample_url: String,
    pub sample_width: u64,
    pub sample_height: u64,
    pub preview_url: String,
    pub rating: String,
    pub tags_concat: String,
    pub id: u64,
    pub width: u64,
    pub change: u64,
    pub md5: String,
    pub creator_id: u64,
    pub has_children: bool,
    pub created_at: String,
    pub source: String,
    pub has_notes: bool,
    pub has_comments: bool,
    pub preview_width: u64,
    pub preview_height: u64,
}

impl Clone for Post {
    fn clone(&self) -> (p: Self)
        ensures
            p == *self,
    {
        Post {
            height: self.height,
            score: self.score,
            file_url: self.file_url.clone(),
            parent_id: self.parent_id.clone(),
            sample_url: self.sample_url.clone(),
            sample_width: self.sample_width,
            sample_height: self.sample_height,
            preview_url: self.preview_url.clone(),
            rating: self.rating.clone(),
            tags_concat: self.tags_concat.clone(),
            id: self.id,
            width: self.width,
            change: self.change,
            md5: self.md5.clone(),
            creator_id: self.creator_id,
            has_children: self.has_children,
            created_at: self.created_at.clone(),
            source: self.source.clone(),
            has_notes: self.has_notes,
            has_comments: self.has_comments,
            preview_width: self.preview_width,
            preview_height: self.preview_height,
        }
    }
}

/// The tags of a post: its space-separated tag text, trimmed, split at each
/// space, each piece trimmed, the empty pieces left out.
pub open spec fn post_tags(tags_concat: Seq<char>) -> Seq<Seq<char>> {
    trimmed_nonempty(split_on(trim(tags_concat), ' '))
}

impl Post {
    /// The post's tags, in the order of its tag text.
    pub fn tags(&self) -> (tags: Vec<&str>)
        ensures
            views_of(tags@) == post_tags(self.tags_concat@),
    {
        split_trimmed(trim_str(self.tags_concat.as_str()), ' ')
    }
}

impl Posts {
    /// The first post of the listing, if it has any.
    pub fn first(&self) -> (post: Option<Post>)
        ensures
            self.posts@.len() == 0 ==> post is None,
            self.posts@.len() > 0 ==> post == Some(self.posts@[0]),
    {
        if self.posts.len() == 0 {
            None
        } else {
            Some(self.posts[0].clone())
        }
    }
}

/// Each tag of a post is nonempty, holds no space, and has no whitespace at
/// either end.
pub proof fn law_post_tags_are_words(tags_concat: Seq<char>)
    ensures
        forall|k: int| 0 <= k < post_tags(tags_concat).len() ==> {
            let t = #[trigger] post_tags(tags_concat)[k];
            &&& t.len() > 0
            &&& !t.contains(' ')
            &&& trim(t) == t
        },
{
    law_split_trimmed_items(trim(tags_concat), ' ');
}

/// A post's tags joined with single spaces make a tag text with the same
/// tags.
pub proof fn law_post_tags_round_trip(tags_concat: Seq<char>)
    ensures
        post_tags(join(post_tags(tags_concat), seq![' '])) == post_tags(tags_concat),
{
    law_post_tags_are_words(tags_concat);
    law_words_round_trip(post_tags(tags_concat));
}

/// Where the only whitespace in a post's tag text is the space, its tags are
/// the text's space-separated words, in order: the nonempty pieces between
/// its spaces.
pub proof fn law_post_tags_are_space_words(tags_concat: Seq<char>)
    requires
        only_spaces_white(tags_concat),
    ensures
        post_tags(tags_concat) == nonempty_pieces(split_on(tags_concat, ' ')),
{
    law_space_words(tags_concat);
}

} // verus!
