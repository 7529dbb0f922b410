//! The response shapes of the wire protocol, as plain data. The adapter
//! layer turns them into XML; the engine only fills them in.

use vstd::prelude::*;

verus! {

/// One typed attribute as it appears in a response.
#[derive(Debug, Clone)]
pub struct MessageAttribute {
    pub string_value: Option<String>,
    pub binary_value: Option<String>,
    pub data_type: String,
}

#[derive(Debug)]
pub struct SendMessageResponse {
    pub send_message_result: SendMessageResult,
}

#[derive(Debug)]
pub struct SendMessageResult {
    pub message_id: String,
    pub md5_of_body: String,
}

#[derive(Debug)]
pub struct ReceiveMessageResponse {
    pub receive_message_result: ReceiveMessageResult,
}

#[derive(Debug)]
pub struct ReceiveMessageResult {
    pub messages: Vec<SqsMessage>,
}

#[derive(Debug)]
pub struct SqsMessage {
    pub message_id: String,
    pub receipt_handle: String,
    pub body: String,
    pub attributes: Vec<(String, String)>,
    pub message_attributes: Vec<(String, MessageAttribute)>,
}

#[derive(Debug)]
pub struct DeleteMessageResponse {
    pub delete_message_result: DeleteMessageResult,
}

#[derive(Debug)]
pub struct DeleteMessageResult {}

#[derive(Debug)]
pub struct ListQueuesResponse {
    pub list_queues_result: ListQueuesResult,
}

#[derive(Debug)]
pub struct ListQueuesResult {
    pub queue_urls: Vec<String>,
}

#[derive(Debug)]
pub struct GetQueueAttributesResponse {
    pub get_queue_attributes_result: GetQueueAttributesResult,
}

#[derive(Debug)]
pub struct GetQueueAttributesResult {
    pub attributes: Vec<QueueAttribute>,
}

#[derive(Debug)]
pub struct QueueAttribute {
    pub name: String,
    pub value: String,
}

#[derive(Debug)]
pub struct CreateQueueResponse {
    pub create_queue_result: CreateQueueResult,
}

#[derive(Debug)]
pub struct CreateQueueResult {
    pub queue_url: String,
}

#[derive(Debug)]
pub struct GetQueueUrlResponse {
    pub get_queue_url_result: GetQueueUrlResult,
}

#[derive(Debug)]
pub struct GetQueueUrlResult {
    pub queue_url: String,
}

#[derive(Debug)]
pub struct SetQueueAttributesResponse {
    pub set_queue_attributes_result: SetQueueAttributesResult,
}

#[derive(Debug)]
pub struct SetQueueAttributesResult {}

#[derive(Debug)]
pub struct SendMessageBatchResponse {
    pub send_message_batch_result: SendMessageBatchResult,
}

#[derive(Debug)]
pub struct SendMessageBatchResult {
    pub successful: Vec<SendMessageBatchResultEntry>,
    pub failed: Vec<BatchResultErrorEntry>,
}

#[derive(Debug)]
pub struct SendMessageBatchResultEntry {
    pub id: String,
    pub message_id: String,
    pub md5_of_body: String,
}

/// A per-entry batch failure, with the caller's entry id.
#[derive(Debug)]
pub struct BatchResultErrorEntry {
    pub id: String,
    pub code: String,
    pub message: String,
    pub sender_fault: bool,
}

#[derive(Debug)]
pub struct DeleteMessageBatchResponse {
    pub delete_message_batch_result: DeleteMessageBatchResult,
}

#[derive(Debug)]
pub struct DeleteMessageBatchResult {
    pub successful: Vec<DeleteMessageBatchResultEntry>,
    pub failed: Vec<BatchResultErrorEntry>,
}

#[derive(Debug)]
pub struct DeleteMessageBatchResultEntry {
    pub id: String,
}

#[derive(Debug)]
pub struct ErrorResponse {
    pub error: SqsError,
}

/// A protocol error: its type (sender or receiver), code and text.
#[derive(Debug)]
pub struct SqsError {
    pub error_type: String,
    pub code: String,
    pub message: String,
}

} // verus!
