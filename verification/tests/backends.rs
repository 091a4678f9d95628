//! Inference backends.

use base64::Engine;
use edge_agent_core::context::ContextEntry;
use edge_agent_core::inference::{
    build_openai_messages, image_file_name, mime_extension, ImagePart, InferenceBackend,
    LitertLmBackend, MockBackend, OpenAiBackend, UserInput,
};

fn value(text: &str) -> serde_json::Value {
    serde_json::from_str(text).unwrap()
}

#[test]
fn mock_backend_generate() {
    let mut backend = MockBackend;
    let res = backend
        .generate("system prompt", &[], &UserInput::text("hello world"))
        .unwrap();
    let val = value(&res);
    assert_eq!(val["reply"], "[mock] hello world");
}

#[test]
fn mock_backend_reports_images() {
    let mut backend = MockBackend;
    let input = UserInput {
        text: "what is this".into(),
        images: vec![ImagePart {
            mime: "image/png".into(),
            data: vec![1, 2, 3],
        }],
    };
    let res = backend.generate("s", &[], &input).unwrap();
    let val = value(&res);
    assert_eq!(val["reply"], "[mock] what is this [+1 image(s)]");
}

#[test]
fn openai_messages_text_only_stays_string() {
    let ctx = vec![ContextEntry {
        role: "user".into(),
        content: "earlier".into(),
    }];
    let msgs = build_openai_messages("sys", &ctx, &UserInput::text("now"));
    let msgs: Vec<_> = msgs.iter().map(|m| value(&m.text)).collect();
    assert_eq!(msgs.len(), 3);
    assert_eq!(msgs[0]["role"], "system");
    assert_eq!(msgs[1]["content"], "earlier");
    // No images => plain string content, not an array.
    assert!(msgs[2]["content"].is_string());
    assert_eq!(msgs[2]["content"], "now");
}

#[test]
fn openai_messages_multimodal_content_parts() {
    let input = UserInput {
        text: "describe".into(),
        images: vec![ImagePart {
            mime: "image/jpeg".into(),
            data: b"fakejpg".to_vec(),
        }],
    };
    let msgs = build_openai_messages("sys", &[], &input);
    let msgs: Vec<_> = msgs.iter().map(|m| value(&m.text)).collect();
    let content = &msgs[1]["content"];
    assert!(content.is_array());
    assert_eq!(content[0]["type"], "text");
    assert_eq!(content[0]["text"], "describe");
    assert_eq!(content[1]["type"], "image_url");
    let url = content[1]["image_url"]["url"].as_str().unwrap();
    assert!(url.starts_with("data:image/jpeg;base64,"));
    let b64 = url.trim_start_matches("data:image/jpeg;base64,");
    assert_eq!(
        base64::engine::general_purpose::STANDARD
            .decode(b64)
            .unwrap(),
        b"fakejpg"
    );
}

fn openai(api_key: Option<&str>) -> OpenAiBackend {
    OpenAiBackend {
        url: "http://127.0.0.1:8000".into(),
        model: "m".into(),
        api_key: api_key.map(String::from),
    }
}

#[test]
fn openai_request_body() {
    let backend = openai(Some("k"));
    let body = backend.request("s", &[], &UserInput::text("t"));
    assert_eq!(
        body.text,
        "{\"messages\":[{\"content\":\"s\",\"role\":\"system\"},{\"content\":\"t\",\"role\":\"user\"}],\"model\":\"m\",\"temperature\":0.2}"
    );
    assert_eq!(backend.authorization(), Some("Bearer k".to_string()));
    assert_eq!(openai(None).authorization(), None);
}

#[test]
fn openai_response_body() {
    let backend = openai(None);
    let body = "{\"choices\":[{\"message\":{\"content\":\"hi\"}}],\"id\":1}";
    assert_eq!(backend.answer(body), Ok("hi".to_string()));
    assert_eq!(
        backend.answer("<html>"),
        Err(
            "inference response is not JSON: Failed to read JSON: expected value at line 1 column 1"
                .to_string()
        )
    );
    let missing = Err("inference response missing choices[0].message.content".to_string());
    for body in [
        "{}",
        "[]",
        "{\"choices\":[]}",
        "{\"choices\":{}}",
        "{\"choices\":[{}]}",
        "{\"choices\":[{\"message\":{}}]}",
        "{\"choices\":[{\"message\":{\"content\":null}}]}",
    ] {
        assert_eq!(backend.answer(body), missing, "{}", body);
    }
}

fn litert(accelerator: Option<&str>, image_arg: Option<&str>, extra: &[&str]) -> LitertLmBackend {
    LitertLmBackend {
        binary: "/nonexistent".into(),
        model_path: "m".into(),
        accelerator: accelerator.map(String::from),
        image_arg: image_arg.map(String::from),
        extra_args: extra.iter().map(|s| s.to_string()).collect(),
    }
}

fn picture() -> UserInput {
    UserInput {
        text: "x".into(),
        images: vec![ImagePart {
            mime: "image/png".into(),
            data: vec![0],
        }],
    }
}

#[test]
fn litert_backend_rejects_images_without_image_arg() {
    let backend = litert(None, None, &[]);
    let err = backend.accepts(&picture()).unwrap_err();
    assert!(err.contains("image_arg"));
    assert_eq!(
        err,
        "litert_lm backend received 1 image(s) but no image_arg is configured; set backend.image_arg (e.g. \"--image_path\") to a flag your litert_lm build supports"
    );
    assert!(backend.accepts(&UserInput::text("x")).is_ok());
    assert!(litert(None, Some("--image_path"), &[]).accepts(&picture()).is_ok());
}

#[test]
fn litert_command_line() {
    let backend = litert(Some("cpu"), None, &["--max_tokens=64"]);
    let args = backend.arguments("be brief", &[], &UserInput::text("hello"), &[]);
    assert_eq!(
        args,
        vec![
            "--model_path=m",
            "--backend=cpu",
            "--max_tokens=64",
            "--input_prompt=be brief\n\nhello",
        ]
    );
    let ctx = vec![ContextEntry {
        role: "user".into(),
        content: "earlier".into(),
    }];
    let backend = litert(None, Some("--image_path"), &[]);
    let args = backend.arguments("", &ctx, &picture(), &["/tmp/a.png".to_string()]);
    assert_eq!(
        args,
        vec![
            "--model_path=m",
            "--image_path=/tmp/a.png",
            "--input_prompt=user: earlier\nx",
        ]
    );
}

#[test]
fn litert_outcome() {
    let backend = litert(None, None, &[]);
    assert_eq!(backend.answer(true, "exit status: 0", b" hi \n", b"noise"), Ok("hi".to_string()));
    assert_eq!(
        backend.answer(false, "exit status: 2", b"", b"bad model\n"),
        Err("litert_lm exited with exit status: 2: bad model".to_string())
    );
}

#[test]
fn image_files_are_named_by_their_type() {
    assert_eq!(mime_extension("image/jpeg"), "jpg");
    assert_eq!(mime_extension("image/jpg"), "jpg");
    assert_eq!(mime_extension("image/png"), "png");
    assert_eq!(mime_extension("image/webp"), "webp");
    assert_eq!(mime_extension("image/bmp"), "bmp");
    assert_eq!(mime_extension("image/tiff"), "bin");
    assert_eq!(image_file_name(12, "345", 0, "image/jpeg"), "ea-litert-12-345-0.jpg");
}
