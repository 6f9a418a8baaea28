use vstd::prelude::*;
use vstd::string::*;
use vstd::utf8::*;

use crate::media::{rewrites, MediaType};
use crate::text::{
    find_bytes, first_occurrence, is_first_occurrence, lemma_first_occurrence,
    lemma_first_occurrence_exists, occurs, occurs_at,
};

verus! {

/// The navigation overlay put into markup: a style block and a script that
/// add a button (and the Alt+H / Escape keys) leading back to the home page.
pub const OVERLAY: &'static str = r#"
<style>
/* 返回首页按钮容器 */
#tauri-back-home-container {
  position: fixed !important;
  top: 0 !important;
  left: 0 !important;
  width: 100vw !important;
  height: 100vh !important;
  z-index: 2147483647 !important;
  pointer-events: none !important;
  font-family: system-ui, -apple-system, sans-serif !important;
}

#tauri-back-home-btn {
  position: absolute !important;
  top: 16px !important;
  left: 16px !important;
  z-index: 2147483647 !important;
  padding: 12px 18px !important;
  border-radius: 25px !important;
  border: 2px solid rgba(255,255,255,0.3) !important;
  background: linear-gradient(135deg, #667eea 0%, #764ba2 100%) !important;
  color: #fff !important;
  font-weight: 700 !important;
  box-shadow: 0 6px 20px rgba(102, 126, 234, 0.4) !important;
  cursor: pointer !important;
  font-size: 15px !important;
  font-family: system-ui, -apple-system, sans-serif !important;
  pointer-events: auto !important;
  opacity: 0.95 !important;
  transform: none !important;
  transition: all 0.3s ease !important;
  backdrop-filter: blur(10px) !important;
  user-select: none !important;
  display: flex !important;
  align-items: center !important;
  gap: 6px !important;
}

#tauri-back-home-btn:hover {
  opacity: 1 !important;
  transform: translateY(-2px) scale(1.05) !important;
  box-shadow: 0 8px 25px rgba(102, 126, 234, 0.6) !important;
}

#tauri-back-home-btn:active {
  transform: translateY(0px) scale(0.98) !important;
}

/* 键盘提示 */
#tauri-keyboard-hint {
  position: absolute !important;
  top: 16px !important;
  right: 16px !important;
  background: rgba(0,0,0,0.7) !important;
  color: #fff !important;
  padding: 8px 12px !important;
  border-radius: 6px !important;
  font-size: 12px !important;
  pointer-events: none !important;
  opacity: 0.8 !important;
  backdrop-filter: blur(10px) !important;
}
</style>
<script>
(function(){
  const containerId = 'tauri-back-home-container';
  const btnId = 'tauri-back-home-btn';
  const hintId = 'tauri-keyboard-hint';

  // 回首页的候选 URL：优先 app://localhost（打包）、其次 dev 端口
  const homeTargets = [
    'app://localhost/',
    'app://localhost/index.html',
    'http://localhost:1420/',
    'http://localhost:1420/index.html'
  ];

  function goHome() {
    console.log('🏠 返回首页: candidates ->', homeTargets, 'history.length=', window.history?.length);

    // 1) 优先尝试历史回退，回到原始按钮页（如果存在）
    try {
      if (window.history && window.history.length > 1) {
        window.history.back();
        setTimeout(() => window.history.back(), 50); // 再尝试一次兜底
        return;
      }
    } catch (e) {
      console.warn('history.back 失败，尝试直接跳转', e);
    }

    // 2) 直接跳转候选首页
    for (const url of homeTargets) {
      try {
        window.location.href = url;
        setTimeout(() => { window.location.replace(url); }, 50);
        return;
      } catch (e) {
        console.warn('跳转失败，尝试下一个', url, e);
      }
    }
  }

  function createBackButton() {
    // 清理旧容器
    const old = document.getElementById(containerId);
    if (old) old.remove();

    const container = document.createElement('div');
    container.id = containerId;

    const btn = document.createElement('button');
    btn.id = btnId;
    btn.innerHTML = '🏠 返回首页';

    const hint = document.createElement('div');
    hint.id = hintId;
    hint.innerHTML = 'Alt+H 返回首页';

    btn.addEventListener('click', (e) => {
      e.preventDefault();
      e.stopPropagation();
      goHome();
    }, true);

    btn.addEventListener('mousedown', (e) => {
      e.preventDefault();
      e.stopPropagation();
    }, true);

    container.appendChild(btn);
    container.appendChild(hint);
    (document.body || document.documentElement).appendChild(container);
    console.log('✅ 返回首页按钮已创建');
  }

  function setupKeyboardShortcut() {
    document.addEventListener('keydown', function(e) {
      if ((e.altKey && e.key.toLowerCase() === 'h') || e.key === 'Escape') {
        e.preventDefault();
        e.stopPropagation();
        goHome();
      }
    }, true);
  }

  function init() {
    createBackButton();
    setupKeyboardShortcut();
  }

  if (document.readyState === 'loading') {
    document.addEventListener('DOMContentLoaded', init);
  } else {
    init();
  }
})();
</script>
"#;

/// The closing head tag, before whose first occurrence the overlay goes.
pub open spec fn head_marker() -> Seq<u8> {
    encode_utf8("</head>"@)
}

/// What is put before the closing head tag: the overlay and a line break.
pub open spec fn overlay_block() -> Seq<u8> {
    encode_utf8(OVERLAY@) + seq![10u8]
}

/// The content as served: markup that is valid UTF-8 and holds a closing head
/// tag gets the overlay right before the first such tag; everything else is
/// left as it is.
pub open spec fn rewritten(b: Seq<u8>, m: MediaType) -> Seq<u8> {
    if rewrites(m) && valid_utf8(b) && occurs(b, head_marker()) {
        let i = first_occurrence(b, head_marker());
        b.subrange(0, i) + overlay_block() + b.subrange(i, b.len() as int)
    } else {
        b
    }
}

/// Relies on std::str::from_utf8: it succeeds exactly on well-formed UTF-8.
#[verifier::external_body]
fn is_utf8(b: &[u8]) -> (r: bool)
    ensures
        r == valid_utf8(b@),
{
    std::str::from_utf8(b).is_ok()
}

/// The content with the navigation overlay put into it, where it is markup
/// that is valid UTF-8 and holds a closing head tag.
pub fn rewrite(content: Vec<u8>, media: MediaType) -> (r: Vec<u8>)
    ensures
        r@ == rewritten(content@, media),
{
    if !media.is_rewritable() || !is_utf8(content.as_slice()) {
        return content;
    }
    let marker = "</head>".as_bytes_vec();
    match find_bytes(&content, &marker) {
        None => content,
        Some(i) => {
            proof {
                lemma_first_occurrence(content@, marker@, i as int);
            }
            let mut out: Vec<u8> = Vec::new();
            let mut k: usize = 0;
            while k < i
                invariant
                    k <= i <= content@.len(),
                    out@ == content@.subrange(0, k as int),
                decreases i - k,
            {
                out.push(content[k]);
                k += 1;
                assert(out@ =~= content@.subrange(0, k as int));
            }
            let mut block = OVERLAY.as_bytes_vec();
            block.push(10u8);
            out.append(&mut block);
            let n = content.len();
            let ghost mid = out@;
            while k < n
                invariant
                    i <= k <= n,
                    n == content@.len(),
                    out@ == mid + content@.subrange(i as int, k as int),
                decreases n - k,
            {
                out.push(content[k]);
                k += 1;
                assert(out@ =~= mid + content@.subrange(i as int, k as int));
            }
            out
        },
    }
}

/// The overlay goes only into markup that holds a closing head tag: other
/// content is left as it is, and where it goes in, it goes in once, right
/// before the first closing head tag, with the content around it kept.
pub proof fn lemma_overlay_inserted_once(b: Seq<u8>, m: MediaType)
    ensures
        !rewrites(m) ==> rewritten(b, m) == b,
        !occurs(b, head_marker()) ==> rewritten(b, m) == b,
        rewrites(m) && valid_utf8(b) && occurs(b, head_marker()) ==> exists|i: int|
            #[trigger] is_first_occurrence(b, head_marker(), i) && rewritten(b, m) == b.subrange(0, i)
                + overlay_block() + b.subrange(i, b.len() as int) && occurs_at(
                rewritten(b, m),
                overlay_block(),
                i,
            ) && occurs_at(rewritten(b, m), head_marker(), i + overlay_block().len()),
{
    if rewrites(m) && valid_utf8(b) && occurs(b, head_marker()) {
        let p = head_marker();
        let w = choose|j: int| occurs_at(b, p, j);
        lemma_first_occurrence_exists(b, p, w);
        let i = first_occurrence(b, p);
        let r = rewritten(b, m);
        let q = overlay_block();
        assert(r.subrange(i, i + q.len()) =~= q);
        assert(r.subrange(i + q.len(), i + q.len() + p.len()) =~= b.subrange(i, i + p.len()));
        assert(is_first_occurrence(b, p, i));
    }
}

} // verus!
