//! The kinds of error that the bot API reports, told apart by the text of the
//! error's description.

use vstd::prelude::*;

verus! {

/// A kind of an API error.
#[derive(Debug, PartialEq, Hash, Eq, Clone)]
#[non_exhaustive]
pub enum BotError {
    /// Occurs when the bot tries to send message to user who blocked the bot.
    BotBlocked,
    /// Occurs when bot tries to modify a message without modification content.
    ///
    /// May happen in: EditMessageText.
    MessageNotModified,
    /// Occurs when bot tries to forward or delete a message which was deleted.
    ///
    /// May happen in: ForwardMessage, DeleteMessage.
    MessageIdInvalid,
    /// Occurs when bot tries to forward a message which does not exists.
    ///
    /// May happen in: ForwardMessage.
    MessageToForwardNotFound,
    /// Occurs when bot tries to delete a message which does not exists.
    ///
    /// May happen in: DeleteMessage.
    MessageToDeleteNotFound,
    /// Occurs when bot tries to send a text message without text.
    ///
    /// May happen in: SendMessage.
    MessageTextIsEmpty,
    /// Occurs when bot tries to edit a message after long time.
    ///
    /// May happen in: EditMessageText.
    MessageCantBeEdited,
    /// Occurs when bot tries to delete a someone else's message in group where
    /// it does not have enough rights.
    ///
    /// May happen in: DeleteMessage.
    MessageCantBeDeleted,
    /// Occurs when bot tries to edit a message which does not exists.
    ///
    /// May happen in: EditMessageText.
    MessageToEditNotFound,
    /// Occurs when bot tries to reply to a message which does not exists.
    ///
    /// May happen in: SendMessage.
    MessageToReplyNotFound,
    /// Occurs when bot tries to act on a message without saying which.
    MessageIdentifierNotSpecified,
    /// Occurs when bot tries to send a message with text size greater then 4096
    /// symbols.
    ///
    /// May happen in: SendMessage.
    MessageIsTooLong,
    /// Occurs when bot tries to edit a message with text size greater then 4096
    /// symbols.
    ///
    /// May happen in: EditMessageText, EditMessageTextInline,
    /// EditMessageCaption, EditMessageCaptionInline.
    EditedMessageIsTooLong,
    /// Occurs when bot tries to send media group with more than 10 items.
    ///
    /// May happen in: SendMediaGroup.
    ToMuchMessages,
    /// Occurs when bot tries to answer an inline query with more than 50
    /// results.
    ///
    /// Consider using offsets to paginate results.
    ///
    /// May happen in: AnswerInlineQuery.
    TooMuchInlineQueryResults,
    /// Occurs when bot tries to stop poll that has already been stopped.
    ///
    /// May happen in: SendPoll.
    PollHasAlreadyClosed,
    /// Occurs when bot tries to send poll with less than 2 options.
    ///
    /// May happen in: SendPoll.
    PollMustHaveMoreOptions,
    /// Occurs when bot tries to send poll with more than 10 options.
    ///
    /// May happen in: SendPoll.
    PollCantHaveMoreOptions,
    /// Occurs when bot tries to send poll with empty option (without text).
    ///
    /// May happen in: SendPoll.
    PollOptionsMustBeNonEmpty,
    /// Occurs when bot tries to send poll with empty question (without text).
    ///
    /// May happen in: SendPoll.
    PollQuestionMustBeNonEmpty,
    /// Occurs when bot tries to send poll with total size of options more than
    /// 100 symbols.
    ///
    /// May happen in: SendPoll.
    PollOptionsLengthTooLong,
    /// Occurs when bot tries to send poll with question size more than 255
    /// symbols.
    ///
    /// May happen in: SendPoll.
    PollQuestionLengthTooLong,
    /// Occurs when bot tries to stop poll with message without poll.
    ///
    /// May happen in: StopPoll.
    MessageWithPollNotFound,
    /// Occurs when bot tries to stop poll with message without poll.
    ///
    /// May happen in: StopPoll.
    MessageIsNotAPoll,
    /// Occurs when bot tries to send a message to chat in which it is not a
    /// member.
    ///
    /// May happen in: SendMessage.
    ChatNotFound,
    /// Occurs when bot tries to send method with unknown user_id.
    ///
    /// May happen in: getUserProfilePhotos.
    UserNotFound,
    /// Occurs when bot tries to send [`SetChatDescription`] with same text as
    /// in the current description.
    ///
    /// May happen in: SetChatDescription.
    ChatDescriptionIsNotModified,
    /// Occurs when bot tries to answer to query after timeout expire.
    ///
    /// May happen in: AnswerCallbackQuery.
    InvalidQueryId,
    /// Occurs when bot tries to send InlineKeyboardMarkup with invalid button
    /// url.
    ///
    /// May happen in: SendMessage.
    ButtonUrlInvalid,
    /// Occurs when bot tries to send button with data size more than 64 bytes.
    ///
    /// May happen in: SendMessage.
    ButtonDataInvalid,
    /// Occurs when bot tries to send button with data size == 0.
    ///
    /// May happen in: SendMessage.
    TextButtonsAreUnallowed,
    /// Occurs when bot tries to get file by wrong file id.
    ///
    /// May happen in: GetFile.
    WrongFileId,
    /// Occurs when bot tries to do some with group which was deactivated.
    GroupDeactivated,
    /// Occurs when bot tries to set chat photo from file ID
    ///
    /// May happen in: SetChatPhoto.
    PhotoAsInputFileRequired,
    /// Occurs when bot tries to add sticker to stickerset by invalid name.
    ///
    /// May happen in: AddStickerToSet.
    InvalidStickersSet,
    /// Occurs when bot tries to create a sticker set with a name that is
    /// already used by another sticker set.
    ///
    /// May happen in: CreateNewStickerSet.
    StickerSetNameOccupied,
    /// Occurs when bot tries to create a sticker set with user id of a bot.
    ///
    /// May happen in: CreateNewStickerSet.
    StickerSetOwnerIsBot,
    /// Occurs when bot tries to create a sticker set with invalid name.
    ///
    /// From documentation of [`CreateNewStickerSet`]: > Short name of sticker
    /// set, to be used in `t.me/addstickers/` URLs (e.g., _animals_). Can
    /// contain only english letters, digits and underscores. Must begin with a
    /// letter, can't contain consecutive underscores and must end in
    /// “\_by\_<bot\_username>”. <bot\_username> is case insensitive. 1-64
    /// characters.
    ///
    /// May happen in: CreateNewStickerSet.
    InvalidStickerName,
    /// Occurs when bot tries to pin a message without rights to pin in this
    /// chat.
    ///
    /// May happen in: PinChatMessage.
    NotEnoughRightsToPinMessage,
    /// Occurs when bot tries to pin or unpin a message without rights to pin in
    /// this chat.
    ///
    /// May happen in: PinChatMessage, UnpinChatMessage.
    NotEnoughRightsToManagePins,
    /// Occurs when bot tries change default chat permissions without "Ban
    /// Users" permission in this chat.
    ///
    /// May happen in: SetChatPermissions.
    NotEnoughRightsToChangeChatPermissions,
    /// Occurs when bot tries to use method in group which is allowed only in a
    /// supergroup or channel.
    MethodNotAvailableInPrivateChats,
    /// Occurs when bot tries to demote chat creator.
    ///
    /// May happen in: PromoteChatMember.
    CantDemoteChatCreator,
    /// Occurs when bot tries to restrict self in group chats.
    ///
    /// May happen in: RestrictChatMember.
    CantRestrictSelf,
    /// Occurs when bot tries to restrict chat member without rights to restrict
    /// in this chat.
    ///
    /// May happen in: RestrictChatMember.
    NotEnoughRightsToRestrict,
    /// Occurs when bot tries to post a message in a channel without "Post
    /// Messages" admin right.
    NotEnoughRightsToPostMessages,
    /// Occurs when bot tries set webhook to protocol other than HTTPS.
    ///
    /// May happen in: SetWebhook.
    WebhookRequireHttps,
    /// Occurs when bot tries to set webhook to port other than 80, 88, 443 or
    /// 8443.
    ///
    /// May happen in: SetWebhook.
    BadWebhookPort,
    /// Occurs when bot tries to set webhook to unknown host.
    ///
    /// May happen in: SetWebhook.
    UnknownHost,
    /// Occurs when bot tries to set webhook to invalid URL.
    ///
    /// May happen in: SetWebhook.
    CantParseUrl,
    /// Occurs when bot tries to send message with unfinished entities.
    ///
    /// May happen in: SendMessage.
    CantParseEntities,
    /// Occurs when bot tries to use getUpdates while webhook is active.
    ///
    /// May happen in: GetUpdates.
    CantGetUpdates,
    /// Occurs when bot tries to do some in group where bot was kicked.
    ///
    /// May happen in: SendMessage.
    BotKicked,
    /// Occurs when bot tries to do something in a supergroup the bot was kicked
    /// from.
    ///
    /// May happen in: SendMessage.
    BotKickedFromSupergroup,
    /// Occurs when bot tries to send message to deactivated user.
    ///
    /// May happen in: SendMessage.
    UserDeactivated,
    /// Occurs when you tries to initiate conversation with a user.
    ///
    /// May happen in: SendMessage.
    CantInitiateConversation,
    /// Occurs when you tries to send message to bot.
    ///
    /// May happen in: SendMessage.
    CantTalkWithBots,
    /// Occurs when bot tries to send button with invalid http url.
    ///
    /// May happen in: SendMessage.
    WrongHttpUrl,
    /// Occurs when bot tries GetUpdate before the timeout. Make sure that only
    /// one Updater is running.
    ///
    /// May happen in: GetUpdates.
    TerminatedByOtherGetUpdates,
    /// Occurs when bot tries to get file by invalid file id.
    ///
    /// May happen in: GetFile.
    FileIdInvalid,
    /// An error of a kind that is not in this list, with its description as it
    /// came.
    Unknown(String),
}

} // verus!
