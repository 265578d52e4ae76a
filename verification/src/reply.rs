//! The messages the bot sends back to a group.
use vstd::prelude::*;

use crate::ghci::LIMIT_BYTE;
use crate::number::{decimal, push_decimal};
use crate::text::{chars_of, push_range, string_from_chars};

verus! {

/// A message the bot sends back to the group it was addressed in.
pub enum Reply {
    /// The image could not be downloaded.
    PullFailed,
    /// The upload is not a GIF, JPEG or PNG image.
    UnsupportedFormat,
    /// An image with the same MD5 digest is already stored (sent with the image).
    DuplicateImage,
    /// The image was stored.
    AddSuccess,
    /// The group has no stored images.
    GalleryEmpty,
    /// Only admins may remove images.
    AdminOnlyRemove,
    /// The image could not be removed.
    RemoveFailed,
    /// The image was removed.
    RemoveSuccess,
    /// The GHCi expression is empty.
    EmptyExpression,
    /// GHCi did not finish in time.
    Timeout,
    /// GHCi's output is at least `LIMIT_BYTE` bytes long.
    OutputTooLong,
    /// A blacklist command names no member.
    TargetNotFound,
    /// Only admins and the owner may change the blacklist.
    AdminOrOwnerOnly,
    /// A blacklist command that is neither `add` nor `remove`.
    UnknownArgument,
    /// The answer to "can you still talk?".
    StillAlive,
    /// Text of GHCi's making.
    Text(String),
}

/// The text of a reply.
pub open spec fn reply_text(r: Reply) -> Seq<char> {
    match r {
        Reply::PullFailed => "拉取失败"@,
        Reply::UnsupportedFormat => "不支持的格式\n支持的格式为jpeg/jpg,png/apng,gif"@,
        Reply::DuplicateImage => "已检测到与此图片MD5相同的图片,不予添加"@,
        Reply::AddSuccess => "添加成功"@,
        Reply::GalleryEmpty => "目前图库里还没有图片"@,
        Reply::AdminOnlyRemove => "只有管理员才可以出典"@,
        Reply::RemoveFailed => "删除失败"@,
        Reply::RemoveSuccess => "出典成功"@,
        Reply::EmptyExpression => "表达式为空或有不合法字符"@,
        Reply::Timeout => "程序超时"@,
        Reply::OutputTooLong => "输出大于等于"@ + decimal(LIMIT_BYTE as int) + "B,不予展示"@,
        Reply::TargetNotFound => "未找到at/qq号"@,
        Reply::AdminOrOwnerOnly => "只有管理员/Owner才可以对黑名单进行操作"@,
        Reply::UnknownArgument => "未知的参数"@,
        Reply::StillAlive => "能说话"@,
        Reply::Text(s) => s@,
    }
}

/// The string holding the literal `s`.
fn string_of(s: &str) -> (r: String)
    ensures
        r@ == s@,
{
    string_from_chars(&chars_of(s))
}

impl Reply {
    /// The text of the reply.
    pub fn text(&self) -> (r: String)
        ensures
            r@ == reply_text(*self),
    {
        match self {
            Reply::PullFailed => string_of("拉取失败"),
            Reply::UnsupportedFormat => string_of("不支持的格式\n支持的格式为jpeg/jpg,png/apng,gif"),
            Reply::DuplicateImage => string_of("已检测到与此图片MD5相同的图片,不予添加"),
            Reply::AddSuccess => string_of("添加成功"),
            Reply::GalleryEmpty => string_of("目前图库里还没有图片"),
            Reply::AdminOnlyRemove => string_of("只有管理员才可以出典"),
            Reply::RemoveFailed => string_of("删除失败"),
            Reply::RemoveSuccess => string_of("出典成功"),
            Reply::EmptyExpression => string_of("表达式为空或有不合法字符"),
            Reply::Timeout => string_of("程序超时"),
            Reply::OutputTooLong => {
                let mut v = chars_of("输出大于等于");
                push_decimal(&mut v, LIMIT_BYTE as i64);
                let tail = chars_of("B,不予展示");
                push_range(&mut v, &tail, 0, tail.len());
                assert(tail@.subrange(0, tail@.len() as int) =~= tail@);
                string_from_chars(&v)
            },
            Reply::TargetNotFound => string_of("未找到at/qq号"),
            Reply::AdminOrOwnerOnly => string_of("只有管理员/Owner才可以对黑名单进行操作"),
            Reply::UnknownArgument => string_of("未知的参数"),
            Reply::StillAlive => string_of("能说话"),
            Reply::Text(s) => s.clone(),
        }
    }
}

} // verus!
